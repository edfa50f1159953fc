//! The player's own rules: which block is selected, what a click edits, and
//! which animation frame shows.
use crate::catalog::{TileId, AIR, BLOCKS, DIRT};
use crate::physics::WalkState;
use crate::queue::{TileChange, TileChangeQueue};
use crate::world::World;
use vstd::prelude::*;

verus! {

/// The player's block selection; air cannot be selected.
pub struct Player {
    pub selected_block: TileId,
}

impl Player {
    pub open spec fn wf(&self) -> bool {
        AIR < self.selected_block < BLOCKS
    }

    /// A player holding dirt.
    pub fn new() -> (r: Self)
        ensures
            r.wf(),
            r.selected_block == DIRT,
    {
        Player { selected_block: DIRT }
    }

    /// Selects the previous kind, stopping at the first block after air.
    pub fn select_previous(&mut self)
        requires
            old(self).wf(),
        ensures
            final(self).wf(),
            final(self).selected_block == if old(self).selected_block > AIR + 1 {
                old(self).selected_block - 1
            } else {
                old(self).selected_block as int
            },
    {
        if self.selected_block > AIR + 1 {
            self.selected_block = self.selected_block - 1;
        }
    }

    /// Selects the next kind, stopping at the last one.
    pub fn select_next(&mut self)
        requires
            old(self).wf(),
        ensures
            final(self).wf(),
            final(self).selected_block == if old(self).selected_block < BLOCKS - 1 {
                old(self).selected_block + 1
            } else {
                old(self).selected_block as int
            },
    {
        if self.selected_block < BLOCKS - 1 {
            self.selected_block = self.selected_block + 1;
        }
    }

    /// Queues placing the selected block at absolute `(x, y)` when that cell
    /// is loaded and holds air; returns whether it did.
    pub fn place_block(&self, w: &World, q: &mut TileChangeQueue, x: i64, y: i64) -> (r: bool)
        requires
            self.wf(),
            w.wf(),
            old(q).wf(),
        ensures
            final(q).wf(),
            r == (w.foreground_kind_at(x as int, y as int) == Some(AIR)),
            r ==> final(q).entries() == old(q).entries().push(TileChange { kind: self.selected_block, x, y })
                && final(q).update_requested(),
            !r ==> *final(q) == *old(q),
    {
        match w.kind_at(x, y) {
            Some(k) => {
                if k == AIR {
                    q.push(self.selected_block, x, y);
                    true
                } else {
                    false
                }
            },
            None => false,
        }
    }

    /// Queues clearing the cell at absolute `(x, y)` to air when it is loaded
    /// and holds something else; returns whether it did.
    pub fn remove_block(&self, w: &World, q: &mut TileChangeQueue, x: i64, y: i64) -> (r: bool)
        requires
            w.wf(),
            old(q).wf(),
        ensures
            final(q).wf(),
            r == (w.foreground_kind_at(x as int, y as int) is Some && w.foreground_kind_at(x as int, y as int)
                != Some(AIR)),
            r ==> final(q).entries() == old(q).entries().push(TileChange { kind: AIR, x, y })
                && final(q).update_requested(),
            !r ==> *final(q) == *old(q),
    {
        match w.kind_at(x, y) {
            Some(k) => {
                if k != AIR {
                    q.push(AIR, x, y);
                    true
                } else {
                    false
                }
            },
            None => false,
        }
    }
}

/// The frames of the player's sprite sheet: one idle frame and a run of walk
/// frames.
pub struct PlayerAnimation {
    pub idle_frame: usize,
    pub first_walk_frame: usize,
    pub last_walk_frame: usize,
}

impl PlayerAnimation {
    /// Idle on frame 0, walking on frames 1 to 7.
    pub fn new() -> (r: Self)
        ensures
            r.idle_frame == 0,
            r.first_walk_frame == 1,
            r.last_walk_frame == 7,
    {
        PlayerAnimation { idle_frame: 0, first_walk_frame: 1, last_walk_frame: 7 }
    }

    /// The frame after `current` when the animation timer fires: a grounded
    /// walking player steps through the walk frames and wraps to the first;
    /// otherwise the idle frame shows.
    pub fn next_frame(&self, current: usize, grounded: bool, walk: WalkState) -> (r: usize)
        ensures
            grounded && walk != WalkState::Idle ==> r == if current < self.first_walk_frame || current
                >= self.last_walk_frame {
                self.first_walk_frame as int
            } else {
                current + 1
            },
            !(grounded && walk != WalkState::Idle) ==> r == self.idle_frame,
    {
        let walking = match walk {
            WalkState::Idle => false,
            _ => true,
        };
        if grounded && walking {
            if current < self.first_walk_frame || current >= self.last_walk_frame {
                self.first_walk_frame
            } else {
                current + 1
            }
        } else {
            self.idle_frame
        }
    }
}

} // verus!
