//! Tile-world core of a side-scrolling sandbox game: chunked tile storage with
//! two-way lookup, floor-based coordinate mapping, edge smoothing, a deferred
//! edit queue, collision probing and a flat record layout for saved chunks.

pub mod coords;
pub mod catalog;
pub mod chunk;
pub mod layer;
pub mod persistence;
pub mod physics;
pub mod player;
pub mod queue;
pub mod smoothing;
pub mod terrain;
pub mod world;
