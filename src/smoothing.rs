//! Edge smoothing: a tile's sprite variant from which of its four neighbours
//! also smooth.
use crate::catalog::{TileCatalog, TileId};
use crate::layer::TileHandle;
use crate::world::World;
use vstd::prelude::*;

verus! {

/// Mask bit of the neighbour above (`y + 1`).
pub const NORTH: u8 = 1;

/// Mask bit of the neighbour below (`y - 1`).
pub const SOUTH: u8 = 2;

/// Mask bit of the neighbour to the right (`x + 1`).
pub const EAST: u8 = 4;

/// Mask bit of the neighbour to the left (`x - 1`).
pub const WEST: u8 = 8;

/// Whether the foreground tile at absolute `(x, y)` is loaded and of a
/// smoothing kind.
pub open spec fn smooths_at(w: World, cat: TileCatalog, x: int, y: int) -> bool {
    match w.foreground_kind_at(x, y) {
        Some(k) => cat.spec_smooths(k as int),
        None => false,
    }
}

pub open spec fn bit(b: bool, value: int) -> int {
    if b {
        value
    } else {
        0
    }
}

/// The smoothing mask of the cell at `(x, y)`: north 1, south 2, east 4,
/// west 8, for each neighbour that smooths.
pub open spec fn spec_mask(w: World, cat: TileCatalog, x: int, y: int) -> int {
    bit(smooths_at(w, cat, x, y + 1), 1) + bit(smooths_at(w, cat, x, y - 1), 2) + bit(
        smooths_at(w, cat, x + 1, y),
        4,
    ) + bit(smooths_at(w, cat, x - 1, y), 8)
}

/// Where a tile is and which sprite variant it shows.
#[derive(Clone, Copy, Debug, PartialEq, Eq, Structural)]
pub struct TileVisual {
    /// Absolute column.
    pub x: i64,
    /// Absolute row.
    pub y: i64,
    /// Sprite variant: the smoothing mask for a smoothing kind, else 0.
    pub frame: u8,
}

/// The visual of tile `h`: its position, and its mask if its kind smooths;
/// `None` when no loaded chunk holds it.
pub open spec fn spec_visual(w: World, cat: TileCatalog, h: TileHandle) -> Option<TileVisual> {
    match w.position_of(h) {
        Some((x, y)) => Some(
            TileVisual {
                x: x as i64,
                y: y as i64,
                frame: if cat.spec_smooths(w.spec_kind(h).unwrap() as int) {
                    spec_mask(w, cat, x, y) as u8
                } else {
                    0
                },
            },
        ),
        None => None,
    }
}

/// Whether the foreground tile at `(x, y)` smooths; false where no chunk is
/// loaded.
pub fn smooths_at_cell(w: &World, cat: &TileCatalog, x: i64, y: i64) -> (r: bool)
    requires
        w.wf(),
    ensures
        r == smooths_at(*w, *cat, x as int, y as int),
{
    match w.kind_at(x, y) {
        Some(k) => cat.by_id(k).smooths,
        None => false,
    }
}

/// Whether the foreground tile at `(x + dx, y + dy)` smooths; false where
/// that cell is not addressable.
fn neighbour_smooths(w: &World, cat: &TileCatalog, x: i64, y: i64, dx: i64, dy: i64) -> (r: bool)
    requires
        w.wf(),
        -1 <= dx <= 1,
        -1 <= dy <= 1,
    ensures
        r == smooths_at(*w, *cat, x + dx, y + dy),
{
    match (x.checked_add(dx), y.checked_add(dy)) {
        (Some(nx), Some(ny)) => smooths_at_cell(w, cat, nx, ny),
        _ => {
            proof {
                w.lemma_unaddressable_unloaded(x + dx, y + dy);
            }
            false
        },
    }
}

/// The smoothing mask of the cell at absolute `(x, y)`.
pub fn smoothing_mask(w: &World, cat: &TileCatalog, x: i64, y: i64) -> (r: u8)
    requires
        w.wf(),
    ensures
        r == spec_mask(*w, *cat, x as int, y as int),
        r < 16,
{
    let mut mask: u8 = 0;
    if neighbour_smooths(w, cat, x, y, 0, 1) {
        mask = mask + NORTH;
    }
    if neighbour_smooths(w, cat, x, y, 0, -1) {
        mask = mask + SOUTH;
    }
    if neighbour_smooths(w, cat, x, y, 1, 0) {
        mask = mask + EAST;
    }
    if neighbour_smooths(w, cat, x, y, -1, 0) {
        mask = mask + WEST;
    }
    mask
}

/// Where tile `h` is and which variant it shows, or `None` when no loaded
/// chunk holds it.
pub fn tile_visual(w: &World, cat: &TileCatalog, h: TileHandle) -> (r: Option<TileVisual>)
    requires
        w.wf(),
    ensures
        r == spec_visual(*w, *cat, h),
{
    match w.find_tile(h) {
        Some((x, y)) => {
            let kind: TileId = match w.kind_of(h) {
                Some(k) => k,
                None => {
                    proof {
                        w.lemma_held_has_record(h, x as int, y as int);
                    }
                    0
                },
            };
            let frame = if cat.by_id(kind).smooths {
                smoothing_mask(w, cat, x, y)
            } else {
                0
            };
            Some(TileVisual { x, y, frame })
        },
        None => None,
    }
}

/// The retiling pass: the visual of every tile record, indexed by handle.
pub fn retile(w: &World, cat: &TileCatalog) -> (r: Vec<Option<TileVisual>>)
    requires
        w.wf(),
    ensures
        r@.len() == w.kinds().len(),
        forall|h: int| 0 <= h < r@.len() ==> #[trigger] r@[h] == spec_visual(*w, *cat, h as TileHandle),
{
    let n = w.tile_count();
    let mut out: Vec<Option<TileVisual>> = Vec::new();
    let mut h: usize = 0;
    while h < n
        invariant
            w.wf(),
            n == w.kinds().len(),
            h <= n,
            out@.len() == h,
            forall|j: int| 0 <= j < h ==> #[trigger] out@[j] == spec_visual(*w, *cat, j as TileHandle),
        decreases n - h,
    {
        out.push(tile_visual(w, cat, h as TileHandle));
        h = h + 1;
    }
    out
}

/// A smoothing tile whose four neighbours all smooth shows variant 15; one
/// with no smoothing neighbour shows variant 0; a neighbour cell whose chunk
/// is not loaded never counts as smoothing.
pub proof fn lemma_mask_extremes(w: World, cat: TileCatalog, h: TileHandle, x: int, y: int)
    requires
        w.wf(),
        w.position_of(h) == Some((x, y)),
        cat.spec_smooths(w.spec_kind(h).unwrap() as int),
    ensures
        smooths_at(w, cat, x, y + 1) && smooths_at(w, cat, x, y - 1) && smooths_at(w, cat, x + 1, y)
            && smooths_at(w, cat, x - 1, y) ==> spec_visual(w, cat, h) == Some(
            TileVisual { x: x as i64, y: y as i64, frame: 15 },
        ),
        !smooths_at(w, cat, x, y + 1) && !smooths_at(w, cat, x, y - 1) && !smooths_at(w, cat, x + 1, y)
            && !smooths_at(w, cat, x - 1, y) ==> spec_visual(w, cat, h) == Some(
            TileVisual { x: x as i64, y: y as i64, frame: 0 },
        ),
        forall|nx: int, ny: int| !w.spec_tile_at(nx, ny).is_some() ==> !#[trigger] smooths_at(w, cat, nx, ny),
{
}

} // verus!
