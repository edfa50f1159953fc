//! The loaded chunks and the arena of tile records they point into.
use crate::catalog::{TileId, BLOCKS};
use crate::chunk::{slot_of, Chunk};
use crate::coords::{
    chunk_coord_in_range, chunk_of, from_chunk_local, lemma_join_then_split, lemma_split_then_join, local_of,
    to_chunk_local, CHUNK_COORD_MAX, CHUNK_COORD_MIN,
};
use crate::layer::{TileHandle, SIZE};
use vstd::prelude::*;

verus! {

/// Why a chunk could not be loaded.
#[derive(Clone, Copy, Debug, PartialEq, Eq, Structural)]
pub enum LoadError {
    /// A chunk coordinate lies outside the addressable range.
    OutOfRange,
    /// The cell list does not hold exactly one pair per slot.
    WrongSize,
    /// A chunk is already loaded at that coordinate.
    AlreadyLoaded,
    /// A cell names a kind outside the catalog.
    UnknownTile,
    /// The tile arena cannot grow by a whole chunk.
    ArenaFull,
}

/// The set of loaded chunks, at most one per chunk coordinate, and the kind
/// of every tile record; chunks hold handles that index the records.
pub struct World {
    chunks: Vec<Chunk>,
    kinds: Vec<TileId>,
}

/// Which error, if any, loading `cells` at `(cx, cy)` into `w` meets, checked
/// in this order.
pub open spec fn load_error(w: World, cx: int, cy: int, cells: Seq<(TileId, TileId)>) -> Option<LoadError> {
    if !chunk_coord_in_range(cx) || !chunk_coord_in_range(cy) {
        Some(LoadError::OutOfRange)
    } else if cells.len() != SIZE {
        Some(LoadError::WrongSize)
    } else if w.is_loaded(cx, cy) {
        Some(LoadError::AlreadyLoaded)
    } else if exists|i: int| 0 <= i < cells.len() && (#[trigger] cells[i].0 >= BLOCKS || cells[i].1 >= BLOCKS) {
        Some(LoadError::UnknownTile)
    } else if w.kinds().len() + 2 * SIZE > usize::MAX {
        Some(LoadError::ArenaFull)
    } else {
        None
    }
}

/// `after` is `before` with one more chunk at `(cx, cy)` whose slot `s` holds
/// fresh records `base + 2s` (background) and `base + 2s + 1` (foreground),
/// `base` being the former record count, of the kinds that `cells` gives.
pub open spec fn loaded_into(before: World, after: World, cx: int, cy: int, cells: Seq<(TileId, TileId)>) -> bool {
    let base = before.kinds().len();
    let c = after.chunks().last();
    &&& after.chunks().len() == before.chunks().len() + 1
    &&& after.chunks().drop_last() == before.chunks()
    &&& c.cx() == cx
    &&& c.cy() == cy
    &&& forall|s: int| 0 <= s < SIZE ==> #[trigger] c.background()[s] == base + 2 * s
    &&& forall|s: int| 0 <= s < SIZE ==> #[trigger] c.foreground()[s] == base + 2 * s + 1
    &&& after.kinds().len() == base + 2 * SIZE
    &&& after.kinds().subrange(0, base as int) == before.kinds()
    &&& forall|s: int| 0 <= s < SIZE ==> #[trigger] after.kinds()[base + 2 * s] == cells[s].0
    &&& forall|s: int| 0 <= s < SIZE ==> after.kinds()[base + 2 * s + 1] == #[trigger] cells[s].1
}

impl World {
    pub closed spec fn chunks(&self) -> Seq<Chunk> {
        self.chunks@
    }

    /// The kind of each tile record, by handle.
    pub closed spec fn kinds(&self) -> Seq<TileId> {
        self.kinds@
    }

    pub closed spec fn wf(&self) -> bool {
        let cs = self.chunks@;
        let ks = self.kinds@;
        &&& forall|i: int| 0 <= i < cs.len() ==> #[trigger] cs[i].wf()
        &&& forall|i: int, j: int|
            0 <= i < cs.len() && 0 <= j < cs.len() && i != j ==> !(#[trigger] cs[i].cx() == #[trigger] cs[j].cx()
                && cs[i].cy() == cs[j].cy())
        &&& forall|i: int, s: int|
            0 <= i < cs.len() && 0 <= s < SIZE ==> #[trigger] cs[i].foreground()[s] < ks.len()
        &&& forall|i: int, s: int|
            0 <= i < cs.len() && 0 <= s < SIZE ==> #[trigger] cs[i].background()[s] < ks.len()
        &&& forall|h: int| 0 <= h < ks.len() ==> #[trigger] ks[h] < BLOCKS
        &&& forall|i: int, j: int, s: int, t: int|
            0 <= i < cs.len() && 0 <= j < cs.len() && 0 <= s < SIZE && 0 <= t < SIZE
                && #[trigger] cs[i].foreground()[s] == #[trigger] cs[j].foreground()[t] ==> i == j && s == t
        &&& forall|i: int, j: int, s: int, t: int|
            0 <= i < cs.len() && 0 <= j < cs.len() && 0 <= s < SIZE && 0 <= t < SIZE
                && #[trigger] cs[i].background()[s] == #[trigger] cs[j].background()[t] ==> i == j && s == t
        &&& forall|i: int, j: int, s: int, t: int|
            0 <= i < cs.len() && 0 <= j < cs.len() && 0 <= s < SIZE && 0 <= t < SIZE
                ==> #[trigger] cs[i].foreground()[s] != #[trigger] cs[j].background()[t]
    }

    /// The position in `chunks()` of the chunk at chunk coordinate `(cx, cy)`.
    pub open spec fn chunk_index(&self, cx: int, cy: int) -> Option<int> {
        if exists|i: int|
            0 <= i < self.chunks().len() && #[trigger] self.chunks()[i].cx() == cx && self.chunks()[i].cy() == cy {
            Some(
                choose|i: int|
                    0 <= i < self.chunks().len() && #[trigger] self.chunks()[i].cx() == cx && self.chunks()[i].cy()
                        == cy,
            )
        } else {
            None
        }
    }

    /// The (background, foreground) handles at absolute `(x, y)`, if its
    /// chunk is loaded.
    pub open spec fn spec_tile_at(&self, x: int, y: int) -> Option<(TileHandle, TileHandle)> {
        match self.chunk_index(chunk_of(x), chunk_of(y)) {
            Some(i) => Some(self.chunks()[i].cell(local_of(x), local_of(y))),
            None => None,
        }
    }

    /// The kind of the tile record `h`, if there is one.
    pub open spec fn spec_kind(&self, h: TileHandle) -> Option<TileId> {
        if h < self.kinds().len() {
            Some(self.kinds()[h as int])
        } else {
            None
        }
    }

    /// The kind of the foreground tile at absolute `(x, y)`.
    pub open spec fn foreground_kind_at(&self, x: int, y: int) -> Option<TileId> {
        match self.spec_tile_at(x, y) {
            Some(p) => self.spec_kind(p.1),
            None => None,
        }
    }

    /// The kind of the background tile at absolute `(x, y)`.
    pub open spec fn background_kind_at(&self, x: int, y: int) -> Option<TileId> {
        match self.spec_tile_at(x, y) {
            Some(p) => self.spec_kind(p.0),
            None => None,
        }
    }

    /// Whether the cell at absolute `(x, y)` holds `h` in either plane.
    pub open spec fn holds(&self, x: int, y: int, h: TileHandle) -> bool {
        match self.spec_tile_at(x, y) {
            Some(p) => p.0 == h || p.1 == h,
            None => false,
        }
    }

    /// The absolute position of tile `h`, if a loaded chunk holds it.
    pub open spec fn position_of(&self, h: TileHandle) -> Option<(int, int)> {
        if exists|p: (int, int)| #[trigger] self.holds(p.0, p.1, h) {
            Some(choose|p: (int, int)| #[trigger] self.holds(p.0, p.1, h))
        } else {
            None
        }
    }

    /// Whether a chunk is loaded at chunk coordinate `(cx, cy)`.
    pub open spec fn is_loaded(&self, cx: int, cy: int) -> bool {
        self.chunk_index(cx, cy).is_some()
    }

    /// A tile is held by at most one cell of a world.
    pub proof fn lemma_holds_unique(&self, h: TileHandle, x1: int, y1: int, x2: int, y2: int)
        requires
            self.wf(),
            self.holds(x1, y1, h),
            self.holds(x2, y2, h),
        ensures
            x1 == x2,
            y1 == y2,
    {
        let k1 = self.chunk_index(chunk_of(x1), chunk_of(y1)).unwrap();
        let k2 = self.chunk_index(chunk_of(x2), chunk_of(y2)).unwrap();
        lemma_split_then_join(x1);
        lemma_split_then_join(y1);
        lemma_split_then_join(x2);
        lemma_split_then_join(y2);
        let s1 = slot_of(local_of(x1), local_of(y1));
        let s2 = slot_of(local_of(x2), local_of(y2));
        let c1 = self.chunks()[k1];
        let c2 = self.chunks()[k2];
        if c1.foreground()[s1] == h {
            if c2.foreground()[s2] == h {
                assert(k1 == k2 && s1 == s2);
            } else {
                assert(c2.background()[s2] == h);
                assert(false);
            }
        } else {
            if c2.foreground()[s2] == h {
                assert(false);
            } else {
                assert(k1 == k2 && s1 == s2);
            }
        }
    }

    /// Every tile of a loaded cell is found at that cell: looking up the
    /// handles that `tile_at(x, y)` gives yields `(x, y)` again.
    pub proof fn lemma_tile_at_then_find(&self, x: int, y: int)
        requires
            self.wf(),
            self.spec_tile_at(x, y) is Some,
        ensures
            self.position_of(self.spec_tile_at(x, y).unwrap().0) == Some((x, y)),
            self.position_of(self.spec_tile_at(x, y).unwrap().1) == Some((x, y)),
    {
        let (b, f) = self.spec_tile_at(x, y).unwrap();
        let q: (int, int) = (x, y);
        assert(self.holds(q.0, q.1, b));
        assert(self.holds(q.0, q.1, f));
        let pb = choose|p: (int, int)| #[trigger] self.holds(p.0, p.1, b);
        let pf = choose|p: (int, int)| #[trigger] self.holds(p.0, p.1, f);
        self.lemma_holds_unique(b, x, y, pb.0, pb.1);
        self.lemma_holds_unique(f, x, y, pf.0, pf.1);
    }

    /// A tile held by a loaded chunk has a record.
    pub proof fn lemma_held_has_record(&self, h: TileHandle, x: int, y: int)
        requires
            self.wf(),
            self.holds(x, y, h),
        ensures
            self.spec_kind(h).is_some(),
    {
        lemma_split_then_join(x);
        lemma_split_then_join(y);
        let k = self.chunk_index(chunk_of(x), chunk_of(y)).unwrap();
        let s = slot_of(local_of(x), local_of(y));
        assert(self.chunks()[k].foreground()[s] < self.kinds().len());
        assert(self.chunks()[k].background()[s] < self.kinds().len());
    }

    /// Both handles of a loaded cell have records.
    pub proof fn lemma_tile_has_records(&self, x: int, y: int)
        requires
            self.wf(),
            self.spec_tile_at(x, y) is Some,
        ensures
            self.spec_tile_at(x, y).unwrap().0 < self.kinds().len(),
            self.spec_tile_at(x, y).unwrap().1 < self.kinds().len(),
    {
        lemma_split_then_join(x);
        lemma_split_then_join(y);
        let k = self.chunk_index(chunk_of(x), chunk_of(y)).unwrap();
        let s = slot_of(local_of(x), local_of(y));
        assert(self.chunks()[k].foreground()[s] < self.kinds().len());
        assert(self.chunks()[k].background()[s] < self.kinds().len());
    }

    /// Both handles of every slot of a loaded chunk have records, of kinds in
    /// the catalog.
    pub proof fn lemma_chunk_records(&self, i: int, s: int)
        requires
            self.wf(),
            0 <= i < self.chunks().len(),
            0 <= s < SIZE,
        ensures
            self.chunks()[i].wf(),
            self.chunks()[i].background()[s] < self.kinds().len(),
            self.chunks()[i].foreground()[s] < self.kinds().len(),
            self.kinds()[self.chunks()[i].background()[s] as int] < BLOCKS,
            self.kinds()[self.chunks()[i].foreground()[s] as int] < BLOCKS,
    {
        assert(self.chunks()[i].wf());
        assert(self.chunks()[i].background()[s] < self.kinds().len());
        assert(self.chunks()[i].foreground()[s] < self.kinds().len());
    }

    proof fn lemma_after_load(&self, before: World, cx: int, cy: int, cells: Seq<(TileId, TileId)>)
        requires
            self.wf(),
            before.wf(),
            !before.is_loaded(cx, cy),
            cells.len() == SIZE,
            loaded_into(before, *self, cx, cy, cells),
        ensures
            self.is_loaded(cx, cy),
            forall|x: int, y: int|
                #![trigger self.spec_tile_at(x, y)]
                chunk_of(x) == cx && chunk_of(y) == cy ==> {
                    &&& self.background_kind_at(x, y) == Some(cells[slot_of(local_of(x), local_of(y))].0)
                    &&& self.foreground_kind_at(x, y) == Some(cells[slot_of(local_of(x), local_of(y))].1)
                },
            forall|x: int, y: int|
                #![trigger self.spec_tile_at(x, y)]
                !(chunk_of(x) == cx && chunk_of(y) == cy) ==> {
                    &&& self.background_kind_at(x, y) == before.background_kind_at(x, y)
                    &&& self.foreground_kind_at(x, y) == before.foreground_kind_at(x, y)
                    &&& self.is_loaded(chunk_of(x), chunk_of(y)) == before.is_loaded(chunk_of(x), chunk_of(y))
                },
    {
        let n = before.chunks().len() as int;
        let base = before.kinds().len() as int;
        assert(self.chunks()[n].cx() == cx && self.chunks()[n].cy() == cy);
        assert forall|a: int, b: int| #[trigger] self.chunk_index(a, b) == (if a == cx && b == cy {
            Some(n)
        } else {
            before.chunk_index(a, b)
        }) by {
            if a == cx && b == cy {
                let k = self.chunk_index(a, b).unwrap();
                if k != n {
                    assert(self.chunks()[k] == before.chunks()[k]);
                    assert(before.chunks()[k].cx() == a && before.chunks()[k].cy() == b);
                }
            } else {
                if self.chunk_index(a, b) is Some {
                    let k = self.chunk_index(a, b).unwrap();
                    assert(k != n);
                    assert(self.chunks()[k] == before.chunks()[k]);
                    assert(before.chunks()[k].cx() == a && before.chunks()[k].cy() == b);
                    let k2 = before.chunk_index(a, b).unwrap();
                    if k2 != k {
                        assert(self.chunks()[k2] == before.chunks()[k2]);
                    }
                } else {
                    if before.chunk_index(a, b) is Some {
                        let k2 = before.chunk_index(a, b).unwrap();
                        assert(self.chunks()[k2] == before.chunks()[k2]);
                    }
                }
            }
        }
        assert forall|x: int, y: int|
            #![trigger self.spec_tile_at(x, y)]
            chunk_of(x) == cx && chunk_of(y) == cy implies {
                &&& self.background_kind_at(x, y) == Some(cells[slot_of(local_of(x), local_of(y))].0)
                &&& self.foreground_kind_at(x, y) == Some(cells[slot_of(local_of(x), local_of(y))].1)
            } by {
            lemma_split_then_join(x);
            lemma_split_then_join(y);
            let s = slot_of(local_of(x), local_of(y));
            assert(self.chunks()[n].background()[s] == base + 2 * s);
            assert(self.chunks()[n].foreground()[s] == base + 2 * s + 1);
            assert(self.kinds()[base + 2 * s] == cells[s].0);
            assert(self.kinds()[base + 2 * s + 1] == cells[s].1);
        }
        assert forall|x: int, y: int|
            #![trigger self.spec_tile_at(x, y)]
            !(chunk_of(x) == cx && chunk_of(y) == cy) implies {
                &&& self.background_kind_at(x, y) == before.background_kind_at(x, y)
                &&& self.foreground_kind_at(x, y) == before.foreground_kind_at(x, y)
                &&& self.is_loaded(chunk_of(x), chunk_of(y)) == before.is_loaded(chunk_of(x), chunk_of(y))
            } by {
            if let Some(k) = before.chunk_index(chunk_of(x), chunk_of(y)) {
                lemma_split_then_join(x);
                lemma_split_then_join(y);
                let s = slot_of(local_of(x), local_of(y));
                assert(self.chunks()[k] == before.chunks()[k]);
                before.lemma_chunk_records(k, s);
                let hb = before.chunks()[k].background()[s];
                let hf = before.chunks()[k].foreground()[s];
                assert(self.kinds()[hb as int] == self.kinds().subrange(0, base)[hb as int]);
                assert(self.kinds()[hf as int] == self.kinds().subrange(0, base)[hf as int]);
            }
        }
    }

    /// A cell outside the `i64` range has no loaded chunk.
    pub proof fn lemma_unaddressable_unloaded(&self, x: int, y: int)
        requires
            self.wf(),
            !(i64::MIN <= x <= i64::MAX) || !(i64::MIN <= y <= i64::MAX),
        ensures
            self.spec_tile_at(x, y).is_none(),
    {
        lemma_split_then_join(x);
        lemma_split_then_join(y);
        if let Some(k) = self.chunk_index(chunk_of(x), chunk_of(y)) {
            let c = self.chunks()[k];
            assert(c.wf());
            lemma_join_then_split(c.cx(), 0);
            lemma_join_then_split(c.cy(), 0);
        }
    }

    /// An empty world.
    pub fn new() -> (r: Self)
        ensures
            r.wf(),
            r.chunks().len() == 0,
            r.kinds().len() == 0,
    {
        World { chunks: Vec::new(), kinds: Vec::new() }
    }

    /// Number of tile records.
    pub fn tile_count(&self) -> (r: usize)
        ensures
            r == self.kinds().len(),
    {
        self.kinds.len()
    }

    /// Number of loaded chunks.
    pub fn chunk_count(&self) -> (r: usize)
        ensures
            r == self.chunks().len(),
    {
        self.chunks.len()
    }

    /// The kind of tile record `h`, or `None` for a handle with no record.
    pub fn kind_of(&self, h: TileHandle) -> (r: Option<TileId>)
        requires
            self.wf(),
        ensures
            r == self.spec_kind(h),
            r.is_some() ==> r.unwrap() < BLOCKS,
    {
        if h < self.kinds.len() as u64 {
            Some(self.kinds[h as usize])
        } else {
            None
        }
    }

    /// Gives tile record `h` the kind `id`; false (and no change) when `h` has
    /// no record.
    pub fn set_kind(&mut self, h: TileHandle, id: TileId) -> (r: bool)
        requires
            old(self).wf(),
            id < BLOCKS,
        ensures
            final(self).wf(),
            final(self).chunks() == old(self).chunks(),
            r == (h < old(self).kinds().len()),
            r ==> final(self).kinds() == old(self).kinds().update(h as int, id),
            !r ==> final(self).kinds() == old(self).kinds(),
    {
        if h < self.kinds.len() as u64 {
            self.kinds.set(h as usize, id);
            true
        } else {
            false
        }
    }

    /// The position in the chunk list of the chunk at `(cx, cy)`.
    fn chunk_position(&self, cx: i64, cy: i64) -> (r: Option<usize>)
        requires
            self.wf(),
        ensures
            match r {
                Some(i) => self.chunk_index(cx as int, cy as int) == Some(i as int),
                None => self.chunk_index(cx as int, cy as int).is_none(),
            },
    {
        let mut i: usize = 0;
        while i < self.chunks.len()
            invariant
                self.wf(),
                i <= self.chunks@.len(),
                forall|j: int| 0 <= j < i ==> !(#[trigger] self.chunks@[j].cx() == cx && self.chunks@[j].cy() == cy),
            decreases self.chunks@.len() - i,
        {
            let c = &self.chunks[i];
            if c.x_pos() == cx && c.y_pos() == cy {
                proof {
                    let k = self.chunk_index(cx as int, cy as int).unwrap();
                    assert(self.chunks()[i as int].cx() == cx);
                    if k != i {
                        assert(self.chunks@[k].cx() == self.chunks@[i as int].cx());
                    }
                }
                return Some(i);
            }
            i = i + 1;
        }
        None
    }

    /// The chunk loaded at chunk coordinate `(cx, cy)`, if any.
    pub fn find_chunk(&self, cx: i64, cy: i64) -> (r: Option<&Chunk>)
        requires
            self.wf(),
        ensures
            match self.chunk_index(cx as int, cy as int) {
                Some(i) => r == Some(&self.chunks()[i]),
                None => r.is_none(),
            },
            r.is_some() ==> r.unwrap().wf(),
    {
        match self.chunk_position(cx, cy) {
            Some(i) => Some(&self.chunks[i]),
            None => None,
        }
    }

    /// The (background, foreground) handles at absolute `(x, y)`, or `None`
    /// when its chunk is not loaded.
    pub fn tile_at(&self, x: i64, y: i64) -> (r: Option<(TileHandle, TileHandle)>)
        requires
            self.wf(),
        ensures
            r == self.spec_tile_at(x as int, y as int),
    {
        let (cx, lx) = to_chunk_local(x);
        let (cy, ly) = to_chunk_local(y);
        match self.chunk_position(cx, cy) {
            Some(i) => {
                proof {
                    assert(self.chunks@[i as int].wf());
                }
                self.chunks[i].at(lx as usize, ly as usize)
            },
            None => None,
        }
    }

    /// The kind of the foreground tile at absolute `(x, y)`, or `None` when
    /// its chunk is not loaded.
    pub fn kind_at(&self, x: i64, y: i64) -> (r: Option<TileId>)
        requires
            self.wf(),
        ensures
            r == self.foreground_kind_at(x as int, y as int),
            r.is_some() ==> r.unwrap() < BLOCKS,
    {
        match self.tile_at(x, y) {
            Some((_, fore)) => self.kind_of(fore),
            None => None,
        }
    }
    /// The absolute position of tile `h`, or `None` when no loaded chunk
    /// holds it. Handles are unique in a world, so the position is too.
    pub fn find_tile(&self, h: TileHandle) -> (r: Option<(i64, i64)>)
        requires
            self.wf(),
        ensures
            match r {
                Some((x, y)) => self.holds(x as int, y as int, h) && self.position_of(h) == Some((x as int, y as int)),
                None => forall|x: int, y: int| !#[trigger] self.holds(x, y, h),
            },
            r.is_none() <==> self.position_of(h).is_none(),
    {
        let mut i: usize = 0;
        while i < self.chunks.len()
            invariant
                self.wf(),
                i <= self.chunks@.len(),
                forall|j: int|
                    0 <= j < i ==> !(#[trigger] self.chunks@[j]).in_foreground(h) && !self.chunks@[j].in_background(h),
            decreases self.chunks@.len() - i,
        {
            let c = &self.chunks[i];
            proof {
                assert(self.chunks@[i as int].wf());
            }
            match c.find(h) {
                Some((lx, ly)) => {
                    let cx = c.x_pos();
                    let cy = c.y_pos();
                    let x = from_chunk_local(cx, lx as u32);
                    let y = from_chunk_local(cy, ly as u32);
                    proof {
                        lemma_join_then_split(cx as int, lx as int);
                        lemma_join_then_split(cy as int, ly as int);
                        assert(self.chunks()[i as int].cx() == cx && self.chunks()[i as int].cy() == cy);
                        let k = self.chunk_index(cx as int, cy as int).unwrap();
                        if k != i {
                            assert(self.chunks@[k].cx() == self.chunks@[i as int].cx());
                        }
                    }
                    proof {
                        let q: (int, int) = (x as int, y as int);
                        assert(self.holds(q.0, q.1, h));
                        let p = choose|p: (int, int)| #[trigger] self.holds(p.0, p.1, h);
                        self.lemma_holds_unique(h, x as int, y as int, p.0, p.1);
                    }
                    return Some((x, y));
                },
                None => {},
            }
            i = i + 1;
        }
        proof {
            assert forall|x: int, y: int| !#[trigger] self.holds(x, y, h) by {
                match self.chunk_index(chunk_of(x), chunk_of(y)) {
                    Some(k) => {
                        let c = self.chunks@[k];
                        lemma_split_then_join(x);
                        lemma_split_then_join(y);
                        let s = slot_of(local_of(x), local_of(y));
                        assert(!c.in_foreground(h));
                        assert(!c.in_background(h));
                        assert(0 <= s < SIZE);
                    },
                    None => {},
                }
            }
        }
        None
    }
    /// Loads a chunk at chunk coordinate `(cx, cy)` with fresh tile records
    /// of the kinds in `cells`, one `(background, foreground)` pair per slot
    /// in row-major order.
    pub fn load_chunk(&mut self, cx: i64, cy: i64, cells: &Vec<(TileId, TileId)>) -> (r: Result<(), LoadError>)
        requires
            old(self).wf(),
        ensures
            final(self).wf(),
            match load_error(*old(self), cx as int, cy as int, cells@) {
                Some(e) => r == Err::<(), LoadError>(e) && *final(self) == *old(self),
                None => r is Ok && loaded_into(*old(self), *final(self), cx as int, cy as int, cells@),
            },
            r is Ok ==> forall|x: int, y: int|
                #![trigger final(self).spec_tile_at(x, y)]
                chunk_of(x) == cx && chunk_of(y) == cy ==> {
                    &&& final(self).background_kind_at(x, y) == Some(cells@[slot_of(local_of(x), local_of(y))].0)
                    &&& final(self).foreground_kind_at(x, y) == Some(cells@[slot_of(local_of(x), local_of(y))].1)
                },
            r is Ok ==> forall|x: int, y: int|
                #![trigger final(self).spec_tile_at(x, y)]
                !(chunk_of(x) == cx && chunk_of(y) == cy) ==> {
                    &&& final(self).background_kind_at(x, y) == old(self).background_kind_at(x, y)
                    &&& final(self).foreground_kind_at(x, y) == old(self).foreground_kind_at(x, y)
                    &&& final(self).is_loaded(chunk_of(x), chunk_of(y)) == old(self).is_loaded(chunk_of(x), chunk_of(y))
                },
            r is Ok ==> final(self).is_loaded(cx as int, cy as int),
    {
        if !(CHUNK_COORD_MIN <= cx && cx <= CHUNK_COORD_MAX && CHUNK_COORD_MIN <= cy && cy <= CHUNK_COORD_MAX) {
            return Err(LoadError::OutOfRange);
        }
        if cells.len() != SIZE {
            return Err(LoadError::WrongSize);
        }
        if self.chunk_position(cx, cy).is_some() {
            return Err(LoadError::AlreadyLoaded);
        }
        let mut i: usize = 0;
        while i < cells.len()
            invariant
                self.wf(),
                chunk_coord_in_range(cx as int),
                chunk_coord_in_range(cy as int),
                cells@.len() == SIZE,
                !self.is_loaded(cx as int, cy as int),
                i <= cells@.len(),
                forall|j: int| 0 <= j < i ==> #[trigger] cells@[j].0 < BLOCKS && cells@[j].1 < BLOCKS,
            decreases cells@.len() - i,
        {
            if cells[i].0 >= BLOCKS || cells[i].1 >= BLOCKS {
                proof {
                    assert(cells@[i as int].0 >= BLOCKS || cells@[i as int].1 >= BLOCKS);
                }
                return Err(LoadError::UnknownTile);
            }
            i = i + 1;
        }
        let base = self.kinds.len();
        if base > usize::MAX - 2 * SIZE {
            return Err(LoadError::ArenaFull);
        }
        let ghost before = *self;
        let mut slots: Vec<(TileHandle, TileHandle)> = Vec::new();
        let mut s: usize = 0;
        while s < SIZE
            invariant
                self.wf(),
                self.chunks@ == before.chunks(),
                before.wf(),
                base == before.kinds().len(),
                base + 2 * SIZE <= usize::MAX,
                cells@.len() == SIZE,
                forall|j: int| 0 <= j < SIZE ==> #[trigger] cells@[j].0 < BLOCKS && cells@[j].1 < BLOCKS,
                s <= SIZE,
                self.kinds@.len() == base + 2 * s,
                self.kinds@.subrange(0, base as int) == before.kinds(),
                forall|j: int| 0 <= j < s ==> #[trigger] self.kinds@[base + 2 * j] == cells@[j].0,
                forall|j: int| 0 <= j < s ==> self.kinds@[base + 2 * j + 1] == #[trigger] cells@[j].1,
                slots@.len() == s,
                forall|j: int| 0 <= j < s ==> #[trigger] slots@[j] == ((base + 2 * j) as u64, (base + 2 * j + 1) as u64),
            decreases SIZE - s,
        {
            self.kinds.push(cells[s].0);
            self.kinds.push(cells[s].1);
            slots.push(((base + 2 * s) as u64, (base + 2 * s + 1) as u64));
            s = s + 1;
            proof {
                assert(self.kinds@.subrange(0, base as int) =~= before.kinds());
            }
        }
        let chunk = Chunk::new(slots, cx, cy);
        self.chunks.push(chunk);
        proof {
            assert(self.chunks@.drop_last() =~= before.chunks());
            assert(!before.is_loaded(cx as int, cy as int));
            self.lemma_after_load(before, cx as int, cy as int, cells@);
        }
        Ok(())
    }
}

} // verus!
