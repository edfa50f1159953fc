//! The decisions of an actor's physics step: which impulse applies, and
//! which probed cells block movement. Positions and velocities themselves
//! are integrated by the caller; this module sees whole tile cells.
use crate::catalog::TileCatalog;
use crate::world::World;
use vstd::prelude::*;

verus! {

/// Upward speed added by a jump, in tiles per second.
pub const JUMP_SPEED: i64 = 30;

/// Horizontal speed added by walking, in tiles per second.
pub const WALK_SPEED: i64 = 5;

/// Whether a jump is wanted this frame.
#[derive(Clone, Copy, Debug, PartialEq, Eq, Structural)]
pub enum JumpState {
    Requested,
    Idle,
}

/// Which way the actor wants to walk this frame.
#[derive(Clone, Copy, Debug, PartialEq, Eq, Structural)]
pub enum WalkState {
    Left,
    Idle,
    Right,
}

impl WalkState {
    /// -1 for left, 0 for idle, 1 for right.
    pub open spec fn spec_direction(self) -> int {
        match self {
            WalkState::Left => -1,
            WalkState::Idle => 0,
            WalkState::Right => 1,
        }
    }

    pub fn direction(self) -> (r: i64)
        ensures
            r == self.spec_direction(),
    {
        match self {
            WalkState::Left => -1,
            WalkState::Idle => 0,
            WalkState::Right => 1,
        }
    }
}

/// The intent of a frame, from the keys held. A held jump key asks for a
/// jump on every frame, so holding it jumps again on each landing; right
/// wins when both directions are held.
pub fn read_intent(jump_held: bool, left_held: bool, right_held: bool) -> (r: (JumpState, WalkState))
    ensures
        r.0 == (if jump_held {
            JumpState::Requested
        } else {
            JumpState::Idle
        }),
        r.1 == (if right_held {
            WalkState::Right
        } else if left_held {
            WalkState::Left
        } else {
            WalkState::Idle
        }),
{
    let jump = if jump_held {
        JumpState::Requested
    } else {
        JumpState::Idle
    };
    let mut walk = WalkState::Idle;
    if left_held {
        walk = WalkState::Left;
    }
    if right_held {
        walk = WalkState::Right;
    }
    (jump, walk)
}

/// The velocity change from intent, in tiles per second: walking and jumping
/// only act on a grounded actor (no air control). Gravity is not included.
pub fn impulse(grounded: bool, jump: JumpState, walk: WalkState) -> (r: (i64, i64))
    ensures
        grounded ==> r.0 == walk.spec_direction() * WALK_SPEED,
        grounded ==> r.1 == (if jump == JumpState::Requested {
            JUMP_SPEED
        } else {
            0
        }),
        !grounded ==> r == (0i64, 0i64),
{
    if grounded {
        let up = match jump {
            JumpState::Requested => JUMP_SPEED,
            JumpState::Idle => 0,
        };
        (walk.direction() * WALK_SPEED, up)
    } else {
        (0, 0)
    }
}

/// Whether the foreground tile at absolute `(x, y)` is loaded and solid.
pub open spec fn solid_at(w: World, cat: TileCatalog, x: int, y: int) -> bool {
    match w.foreground_kind_at(x, y) {
        Some(k) => cat.spec_solid(k as int),
        None => false,
    }
}

/// Number of solid cells `(x0 + ox, y)` with `0 <= ox < cols`.
pub open spec fn row_solid_count(w: World, cat: TileCatalog, x0: int, y: int, cols: nat) -> nat
    decreases cols,
{
    if cols == 0 {
        0
    } else {
        row_solid_count(w, cat, x0, y, (cols - 1) as nat) + if solid_at(w, cat, x0 + cols - 1, y) {
            1nat
        } else {
            0nat
        }
    }
}

/// Number of solid cells `(x0 + ox, y0 + oy)` with `0 <= ox < cols` and
/// `0 <= oy < rows`.
pub open spec fn solid_count(w: World, cat: TileCatalog, x0: int, y0: int, cols: nat, rows: nat) -> nat
    decreases rows,
{
    if rows == 0 {
        0
    } else {
        solid_count(w, cat, x0, y0, cols, (rows - 1) as nat) + row_solid_count(w, cat, x0, y0 + rows - 1, cols)
    }
}

/// The probes of one step, in whole cells: the actor's cell before the step
/// (`mob_x`, `mob_y`, its position truncated), its cell after the tentative
/// move (`new_x`, `new_y`) and its extent (`size_x`, `size_y`, truncated).
#[derive(Clone, Copy, Debug, PartialEq, Eq, Structural)]
pub struct Probe {
    pub mob_x: i64,
    pub mob_y: i64,
    pub new_x: i64,
    pub new_y: i64,
    pub size_x: u16,
    pub size_y: u16,
}

/// What blocked the step.
#[derive(Clone, Copy, Debug, PartialEq, Eq, Structural)]
pub struct Collisions {
    /// Solid cells met by moving along y alone; each one stops vertical
    /// motion, grounds the actor and applies friction once.
    pub vertical_hits: u64,
    /// Whether moving along x alone meets a solid cell.
    pub horizontal: bool,
}

/// Solid cells met by the vertical probe: the current columns at the
/// tentative rows.
pub open spec fn spec_vertical_hits(w: World, cat: TileCatalog, p: Probe) -> nat {
    solid_count(w, cat, p.mob_x as int, p.new_y as int, (p.size_x + 1) as nat, (p.size_y + 1) as nat)
}

/// Solid cells met by the horizontal probe: the tentative columns at the
/// current rows.
pub open spec fn spec_horizontal_hits(w: World, cat: TileCatalog, p: Probe) -> nat {
    solid_count(w, cat, p.new_x as int, p.mob_y as int, (p.size_x + 1) as nat, (p.size_y + 1) as nat)
}

/// Whether the foreground tile at `(x + dx, y + dy)` is solid; false where
/// that cell is not addressable.
fn solid_offset(w: &World, cat: &TileCatalog, x: i64, y: i64, dx: u16, dy: u16) -> (r: bool)
    requires
        w.wf(),
    ensures
        r == solid_at(*w, *cat, x + dx, y + dy),
{
    match (x.checked_add(dx as i64), y.checked_add(dy as i64)) {
        (Some(cx), Some(cy)) => match w.kind_at(cx, cy) {
            Some(k) => cat.by_id(k).solid,
            None => false,
        },
        _ => {
            proof {
                w.lemma_unaddressable_unloaded(x + dx, y + dy);
            }
            false
        },
    }
}

/// Counts the solid cells `(x0 + ox, y0 + oy)` for `ox` in `0..=size_x` and
/// `oy` in `0..=size_y`.
pub fn count_solid_cells(w: &World, cat: &TileCatalog, x0: i64, y0: i64, size_x: u16, size_y: u16) -> (r: u64)
    requires
        w.wf(),
    ensures
        r == solid_count(*w, *cat, x0 as int, y0 as int, (size_x + 1) as nat, (size_y + 1) as nat),
{
    let mut hits: u64 = 0;
    let mut oy: u32 = 0;
    while oy <= size_y as u32
        invariant
            w.wf(),
            oy <= size_y + 1,
            hits == solid_count(*w, *cat, x0 as int, y0 as int, (size_x + 1) as nat, oy as nat),
            hits <= oy * 65537,
        decreases size_y + 1 - oy,
    {
        let mut ox: u32 = 0;
        let ghost above = hits;
        while ox <= size_x as u32
            invariant
                w.wf(),
                oy <= size_y,
                ox <= size_x + 1,
                above == solid_count(*w, *cat, x0 as int, y0 as int, (size_x + 1) as nat, oy as nat),
                above <= oy * 65537,
                hits == above + row_solid_count(*w, *cat, x0 as int, y0 + oy, ox as nat),
                hits <= above + ox,
            decreases size_x + 1 - ox,
        {
            if solid_offset(w, cat, x0, y0, ox as u16, oy as u16) {
                hits = hits + 1;
            }
            ox = ox + 1;
        }
        oy = oy + 1;
    }
    hits
}

/// The collision probes of one step.
pub fn resolve_collisions(w: &World, cat: &TileCatalog, p: Probe) -> (r: Collisions)
    requires
        w.wf(),
    ensures
        r.vertical_hits == spec_vertical_hits(*w, *cat, p),
        r.horizontal == (spec_horizontal_hits(*w, *cat, p) > 0),
{
    let vertical_hits = count_solid_cells(w, cat, p.mob_x, p.new_y, p.size_x, p.size_y);
    let horizontal = count_solid_cells(w, cat, p.new_x, p.mob_y, p.size_x, p.size_y) > 0;
    Collisions { vertical_hits, horizontal }
}

proof fn lemma_row_count_positive(w: World, cat: TileCatalog, x0: int, y: int, cols: nat, ox: int)
    requires
        0 <= ox < cols,
        solid_at(w, cat, x0 + ox, y),
    ensures
        row_solid_count(w, cat, x0, y, cols) > 0,
    decreases cols,
{
    if ox < cols - 1 {
        lemma_row_count_positive(w, cat, x0, y, (cols - 1) as nat, ox);
    }
}

/// A solid cell inside the probed rectangle makes the count positive.
pub proof fn lemma_count_positive(w: World, cat: TileCatalog, x0: int, y0: int, cols: nat, rows: nat, ox: int, oy: int)
    requires
        0 <= ox < cols,
        0 <= oy < rows,
        solid_at(w, cat, x0 + ox, y0 + oy),
    ensures
        solid_count(w, cat, x0, y0, cols, rows) > 0,
    decreases rows,
{
    if oy < rows - 1 {
        lemma_count_positive(w, cat, x0, y0, cols, (rows - 1) as nat, ox, oy);
    } else {
        lemma_row_count_positive(w, cat, x0, y0 + rows - 1, cols, ox);
    }
}

/// An actor whose tentative rows reach a solid cell under one of its
/// columns lands (the vertical probe hits), and one whose tentative columns
/// reach a solid cell beside one of its rows is stopped (the horizontal
/// probe hits).
pub proof fn lemma_blocked_by_solid(w: World, cat: TileCatalog, p: Probe, ox: int, oy: int)
    requires
        0 <= ox <= p.size_x,
        0 <= oy <= p.size_y,
    ensures
        solid_at(w, cat, p.mob_x + ox, p.new_y + oy) ==> spec_vertical_hits(w, cat, p) > 0,
        solid_at(w, cat, p.new_x + ox, p.mob_y + oy) ==> spec_horizontal_hits(w, cat, p) > 0,
{
    if solid_at(w, cat, p.mob_x + ox, p.new_y + oy) {
        lemma_count_positive(w, cat, p.mob_x as int, p.new_y as int, (p.size_x + 1) as nat, (p.size_y + 1) as nat, ox, oy);
    }
    if solid_at(w, cat, p.new_x + ox, p.mob_y + oy) {
        lemma_count_positive(w, cat, p.new_x as int, p.mob_y as int, (p.size_x + 1) as nat, (p.size_y + 1) as nat, ox, oy);
    }
}

} // verus!
