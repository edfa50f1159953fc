//! The fixed table of tile kinds and their physical and visual flags.
use vstd::prelude::*;

verus! {

/// Index of a tile kind in the catalog.
pub type TileId = usize;

pub const AIR: TileId = 0;
pub const DIRT: TileId = 1;
pub const GRASS: TileId = 2;
pub const LOG: TileId = 3;
pub const WOOD: TileId = 4;
pub const STONE: TileId = 5;
pub const STONEBRICK: TileId = 6;
pub const GLASS: TileId = 7;
pub const GLASSPANE: TileId = 8;

/// Number of tile kinds; valid ids are `0..BLOCKS`.
pub const BLOCKS: TileId = 9;

/// Properties shared by every tile of one kind.
#[derive(Clone, Copy, Debug, PartialEq, Eq, Structural)]
pub struct TileKind {
    /// Whether the tile blocks actor movement.
    pub solid: bool,
    /// Whether the tile blends visually with smoothing neighbours.
    pub smooths: bool,
}

/// One placed tile: the kind it currently has.
#[derive(Clone, Copy, Debug, PartialEq, Eq, Structural)]
pub struct Tile {
    pub id: TileId,
}

/// The table of tile kinds, indexed by id.
pub struct TileCatalog {
    pub tiles: [TileKind; BLOCKS],
}

impl TileCatalog {
    /// The kinds, in id order.
    pub open spec fn kinds(&self) -> Seq<TileKind> {
        self.tiles@
    }

    pub open spec fn spec_solid(&self, id: int) -> bool {
        self.kinds()[id].solid
    }

    pub open spec fn spec_smooths(&self, id: int) -> bool {
        self.kinds()[id].smooths
    }

    pub fn new(tiles: [TileKind; BLOCKS]) -> (r: Self)
        ensures
            r.kinds() == tiles@,
    {
        TileCatalog { tiles }
    }

    /// The catalog of the game: air is neither solid nor smoothing, every
    /// other kind is both.
    pub fn standard() -> (r: Self)
        ensures
            r.kinds()[AIR as int] == (TileKind { solid: false, smooths: false }),
            forall|id: int| 1 <= id < BLOCKS ==> #[trigger] r.kinds()[id] == (TileKind { solid: true, smooths: true }),
    {
        let air = TileKind { solid: false, smooths: false };
        let block = TileKind { solid: true, smooths: true };
        TileCatalog { tiles: [air, block, block, block, block, block, block, block, block] }
    }

    pub fn by_id(&self, id: TileId) -> (r: &TileKind)
        requires
            id < BLOCKS,
        ensures
            *r == self.kinds()[id as int],
    {
        &self.tiles[id]
    }

    pub fn by_tile(&self, tile: &Tile) -> (r: &TileKind)
        requires
            tile.id < BLOCKS,
        ensures
            *r == self.kinds()[tile.id as int],
    {
        &self.tiles[tile.id]
    }

    pub fn make_tile(&self, id: TileId) -> (r: Tile)
        ensures
            r.id == id,
    {
        Tile { id }
    }
}

} // verus!
