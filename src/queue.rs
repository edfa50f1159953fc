//! The deferred edit queue and the flag that gates the retiling pass.
use crate::catalog::{TileCatalog, TileId, BLOCKS};
use crate::chunk::{HEIGHT, WIDTH};
use crate::coords::{chunk_coord_in_range, from_chunk_local};
use crate::layer::SIZE;
use crate::smoothing::{retile, spec_visual, TileVisual};
use crate::world::World;
use vstd::prelude::*;

verus! {

/// A requested edit: the foreground tile at absolute `(x, y)` becomes `kind`.
#[derive(Clone, Copy, Debug, PartialEq, Eq, Structural)]
pub struct TileChange {
    pub kind: TileId,
    pub x: i64,
    pub y: i64,
}

/// The tile kinds after applying one edit to `kinds`: the foreground record
/// at the edit's cell takes its kind; an edit whose chunk is not loaded
/// changes nothing.
pub open spec fn apply_one(w: World, kinds: Seq<TileId>, c: TileChange) -> Seq<TileId> {
    match w.spec_tile_at(c.x as int, c.y as int) {
        Some(p) => if p.1 < kinds.len() {
            kinds.update(p.1 as int, c.kind)
        } else {
            kinds
        },
        None => kinds,
    }
}

/// The tile kinds after applying `changes` in order to `kinds`, the cells of
/// `w` telling which record each edit reaches.
pub open spec fn apply_all(w: World, kinds: Seq<TileId>, changes: Seq<TileChange>) -> Seq<TileId>
    decreases changes.len(),
{
    if changes.len() == 0 {
        kinds
    } else {
        apply_one(w, apply_all(w, kinds, changes.drop_last()), changes.last())
    }
}

/// Edits waiting for the next retiling pass, and whether that pass is due.
pub struct TileChangeQueue {
    queue: Vec<TileChange>,
    should_update: bool,
}

impl TileChangeQueue {
    pub closed spec fn entries(&self) -> Seq<TileChange> {
        self.queue@
    }

    pub closed spec fn update_requested(&self) -> bool {
        self.should_update
    }

    pub open spec fn wf(&self) -> bool {
        forall|i: int| 0 <= i < self.entries().len() ==> #[trigger] self.entries()[i].kind < BLOCKS
    }

    /// An empty queue; the first pass is due, so a freshly loaded world gets
    /// its sprites.
    pub fn new() -> (r: Self)
        ensures
            r.wf(),
            r.entries().len() == 0,
            r.update_requested(),
    {
        TileChangeQueue { queue: Vec::new(), should_update: true }
    }

    /// Queues an edit and marks the retiling pass as due.
    pub fn push(&mut self, kind: TileId, x: i64, y: i64)
        requires
            old(self).wf(),
            kind < BLOCKS,
        ensures
            final(self).wf(),
            final(self).entries() == old(self).entries().push(TileChange { kind, x, y }),
            final(self).update_requested(),
    {
        self.queue.push(TileChange { kind, x, y });
        self.should_update = true;
        proof {
            assert forall|i: int| 0 <= i < self.entries().len() implies #[trigger] self.entries()[i].kind < BLOCKS by {
                if i < old(self).entries().len() {
                    assert(old(self).entries()[i] == self.entries()[i]);
                }
            }
        }
    }

    /// Marks the retiling pass as due, as loading a chunk does.
    pub fn request_update(&mut self)
        ensures
            final(self).entries() == old(self).entries(),
            final(self).update_requested(),
    {
        self.should_update = true;
    }

    /// Whether the retiling pass is due.
    pub fn run_if_tiles_should_update(&self) -> (r: bool)
        ensures
            r == self.update_requested(),
    {
        self.should_update
    }

    /// The queued edits, oldest first.
    pub fn len(&self) -> (r: usize)
        ensures
            r == self.entries().len(),
    {
        self.queue.len()
    }

    /// Applies every queued edit in order, each to the foreground tile at its
    /// cell (edits outside the loaded chunks are dropped), then empties the
    /// queue.
    pub fn drain_and_apply(&mut self, w: &mut World)
        requires
            old(self).wf(),
            old(w).wf(),
        ensures
            final(self).wf(),
            final(self).entries().len() == 0,
            final(self).update_requested() == old(self).update_requested(),
            final(w).wf(),
            final(w).chunks() == old(w).chunks(),
            final(w).kinds() == apply_all(*old(w), old(w).kinds(), old(self).entries()),
    {
        let ghost w0 = *w;
        let mut i: usize = 0;
        while i < self.queue.len()
            invariant
                self.wf(),
                w.wf(),
                w.chunks() == w0.chunks(),
                i <= self.queue@.len(),
                w.kinds() == apply_all(w0, w0.kinds(), self.queue@.subrange(0, i as int)),
            decreases self.queue@.len() - i,
        {
            let c = self.queue[i];
            proof {
                assert(self.queue@.subrange(0, i + 1).drop_last() =~= self.queue@.subrange(0, i as int));
                assert(self.entries()[i as int].kind < BLOCKS);
                assert(w.spec_tile_at(c.x as int, c.y as int) == w0.spec_tile_at(c.x as int, c.y as int));
            }
            match w.tile_at(c.x, c.y) {
                Some((_, fore)) => {
                    w.set_kind(fore, c.kind);
                },
                None => {},
            }
            i = i + 1;
        }
        proof {
            assert(self.queue@.subrange(0, i as int) =~= self.queue@);
        }
        self.queue.clear();
    }

    /// The gated pass of a frame: when it is due, applies the queued edits,
    /// recomputes every tile's visual, clears the flag and returns the
    /// visuals by handle; otherwise does nothing and returns `None`.
    pub fn process(&mut self, w: &mut World, cat: &TileCatalog) -> (r: Option<Vec<Option<TileVisual>>>)
        requires
            old(self).wf(),
            old(w).wf(),
        ensures
            final(self).wf(),
            final(w).wf(),
            !final(self).update_requested(),
            final(w).chunks() == old(w).chunks(),
            old(self).update_requested() ==> {
                &&& final(self).entries().len() == 0
                &&& final(w).kinds() == apply_all(*old(w), old(w).kinds(), old(self).entries())
                &&& r.is_some()
                &&& r.unwrap()@.len() == final(w).kinds().len()
                &&& forall|h: int|
                    0 <= h < r.unwrap()@.len() ==> #[trigger] r.unwrap()@[h] == spec_visual(
                        *final(w),
                        *cat,
                        h as u64,
                    )
            },
            !old(self).update_requested() ==> {
                &&& r.is_none()
                &&& final(self).entries() == old(self).entries()
                &&& *final(w) == *old(w)
            },
    {
        if !self.should_update {
            return None;
        }
        self.drain_and_apply(w);
        let visuals = retile(w, cat);
        self.should_update = false;
        Some(visuals)
    }

    /// Queues the foreground kinds of a saved chunk onto the cells of chunk
    /// `(cx, cy)`, column by column, and marks the retiling pass as due.
    pub fn queue_chunk(&mut self, cells: &Vec<(TileId, TileId)>, cx: i64, cy: i64)
        requires
            old(self).wf(),
            cells@.len() == SIZE,
            forall|i: int| 0 <= i < cells@.len() ==> #[trigger] cells@[i].1 < BLOCKS,
            chunk_coord_in_range(cx as int),
            chunk_coord_in_range(cy as int),
        ensures
            final(self).wf(),
            final(self).update_requested(),
            final(self).entries().len() == old(self).entries().len() + SIZE,
            final(self).entries().subrange(0, old(self).entries().len() as int) == old(self).entries(),
            forall|lx: int, ly: int|
                0 <= lx < 64 && 0 <= ly < 64 ==> #[trigger] final(self).entries()[old(self).entries().len() + lx * 64
                    + ly] == (TileChange { kind: cells@[lx + ly * 64].1, x: (cx * 64 + lx) as i64, y: (cy * 64 + ly) as i64 }),
    {
        let ghost start = self.queue@;
        self.should_update = true;
        assert(self.entries() == old(self).entries());
        let mut lx: usize = 0;
        while lx < WIDTH
            invariant
                self.wf(),
                self.should_update,
                cells@.len() == SIZE,
                forall|i: int| 0 <= i < cells@.len() ==> #[trigger] cells@[i].1 < BLOCKS,
                chunk_coord_in_range(cx as int),
                chunk_coord_in_range(cy as int),
                lx <= 64,
                self.queue@.len() == start.len() + lx * 64,
                self.queue@.subrange(0, start.len() as int) == start,
                forall|a: int, b: int|
                    0 <= a < lx && 0 <= b < 64 ==> #[trigger] self.queue@[start.len() + a * 64 + b] == (TileChange {
                        kind: cells@[a + b * 64].1,
                        x: (cx * 64 + a) as i64,
                        y: (cy * 64 + b) as i64,
                    }),
            decreases 64 - lx,
        {
            let mut ly: usize = 0;
            while ly < HEIGHT
                invariant
                    self.wf(),
                    self.should_update,
                    cells@.len() == SIZE,
                    forall|i: int| 0 <= i < cells@.len() ==> #[trigger] cells@[i].1 < BLOCKS,
                    chunk_coord_in_range(cx as int),
                    chunk_coord_in_range(cy as int),
                    lx < 64,
                    ly <= 64,
                    self.queue@.len() == start.len() + lx * 64 + ly,
                    self.queue@.subrange(0, start.len() as int) == start,
                    forall|a: int, b: int|
                        0 <= a < lx && 0 <= b < 64 ==> #[trigger] self.queue@[start.len() + a * 64 + b] == (TileChange {
                            kind: cells@[a + b * 64].1,
                            x: (cx * 64 + a) as i64,
                            y: (cy * 64 + b) as i64,
                        }),
                    forall|b: int|
                        0 <= b < ly ==> #[trigger] self.queue@[start.len() + lx * 64 + b] == (TileChange {
                            kind: cells@[lx + b * 64].1,
                            x: (cx * 64 + lx) as i64,
                            y: (cy * 64 + b) as i64,
                        }),
                decreases 64 - ly,
            {
                let x = from_chunk_local(cx, lx as u32);
                let y = from_chunk_local(cy, ly as u32);
                self.push(cells[lx + ly * WIDTH].1, x, y);
                proof {
                    assert(self.queue@.subrange(0, start.len() as int) =~= start);
                }
                ly = ly + 1;
            }
            lx = lx + 1;
        }
    }
}

/// Of several edits to one loaded cell, the last one decides its kind; an
/// edit to a cell whose chunk is not loaded changes nothing.
pub proof fn lemma_last_write_wins(w: World, kinds: Seq<TileId>, changes: Seq<TileChange>, c: TileChange)
    requires
        w.wf(),
        kinds.len() == w.kinds().len(),
    ensures
        w.spec_tile_at(c.x as int, c.y as int) is Some ==> apply_all(w, kinds, changes.push(c))[w.spec_tile_at(
            c.x as int,
            c.y as int,
        ).unwrap().1 as int] == c.kind,
        w.spec_tile_at(c.x as int, c.y as int) is None ==> apply_all(w, kinds, changes.push(c)) == apply_all(
            w,
            kinds,
            changes,
        ),
{
    assert(changes.push(c).drop_last() =~= changes);
    lemma_apply_all_len(w, kinds, changes);
    if let Some(p) = w.spec_tile_at(c.x as int, c.y as int) {
        w.lemma_tile_has_records(c.x as int, c.y as int);
    }
}

/// Applying edits never changes the number of records.
pub proof fn lemma_apply_all_len(w: World, kinds: Seq<TileId>, changes: Seq<TileChange>)
    ensures
        apply_all(w, kinds, changes).len() == kinds.len(),
    decreases changes.len(),
{
    if changes.len() > 0 {
        lemma_apply_all_len(w, kinds, changes.drop_last());
    }
}

} // verus!
