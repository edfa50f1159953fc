//! A 64 by 64 block of tiles with a background and a foreground plane.
use crate::coords::chunk_coord_in_range;
use crate::layer::{Layer, TileHandle, SIZE};
use vstd::prelude::*;

verus! {

/// Number of columns in a chunk.
pub const WIDTH: usize = 64;

/// Number of rows in a chunk.
pub const HEIGHT: usize = 64;

/// Slot of local position `(x, y)` in a plane.
pub open spec fn slot_of(x: int, y: int) -> int {
    x + y * 64
}

/// Whether `(x, y)` is a local position inside a chunk.
pub open spec fn local_in_bounds(x: int, y: int) -> bool {
    0 <= x < 64 && 0 <= y < 64
}

/// The local position of slot `i`.
pub open spec fn position_of_slot(i: int) -> (int, int) {
    (i % 64, i / 64)
}

proof fn lemma_slot_position(i: int)
    requires
        0 <= i < 4096,
    ensures
        local_in_bounds(position_of_slot(i).0, position_of_slot(i).1),
        slot_of(position_of_slot(i).0, position_of_slot(i).1) == i,
{
    vstd::arithmetic::div_mod::lemma_fundamental_div_mod(i, 64);
}

/// A chunk: two planes of tile handles, placed at chunk coordinate `(x, y)`.
pub struct Chunk {
    background: Layer,
    foreground: Layer,
    x_pos: i64,
    y_pos: i64,
}

impl Chunk {
    pub closed spec fn background(&self) -> Seq<TileHandle> {
        self.background.handles()
    }

    pub closed spec fn foreground(&self) -> Seq<TileHandle> {
        self.foreground.handles()
    }

    pub closed spec fn cx(&self) -> int {
        self.x_pos as int
    }

    pub closed spec fn cy(&self) -> int {
        self.y_pos as int
    }

    pub closed spec fn planes_consistent(&self) -> bool {
        self.background.wf() && self.foreground.wf()
    }

    pub open spec fn wf(&self) -> bool {
        &&& self.planes_consistent()
        &&& self.background().len() == SIZE
        &&& self.foreground().len() == SIZE
        &&& chunk_coord_in_range(self.cx())
        &&& chunk_coord_in_range(self.cy())
    }

    /// The (background, foreground) pair at local position `(x, y)`.
    pub open spec fn cell(&self, x: int, y: int) -> (TileHandle, TileHandle) {
        (self.background()[slot_of(x, y)], self.foreground()[slot_of(x, y)])
    }

    /// Whether some slot of the foreground holds `h`.
    pub open spec fn in_foreground(&self, h: TileHandle) -> bool {
        exists|i: int| 0 <= i < SIZE && self.foreground()[i] == h
    }

    /// Whether some slot of the background holds `h`.
    pub open spec fn in_background(&self, h: TileHandle) -> bool {
        exists|i: int| 0 <= i < SIZE && self.background()[i] == h
    }

    /// No handle is held by two slots of the chunk, in either plane.
    pub open spec fn handles_distinct(&self) -> bool {
        &&& forall|i: int, j: int|
            0 <= i < SIZE && 0 <= j < SIZE && i != j ==> self.foreground()[i] != self.foreground()[j]
        &&& forall|i: int, j: int|
            0 <= i < SIZE && 0 <= j < SIZE && i != j ==> self.background()[i] != self.background()[j]
        &&& forall|i: int, j: int|
            0 <= i < SIZE && 0 <= j < SIZE ==> self.foreground()[i] != self.background()[j]
    }

    /// What `find` may return for `h`: a position whose foreground holds `h`
    /// if any does, else one whose background holds it, else `None`.
    pub open spec fn find_result(&self, h: TileHandle, r: Option<(usize, usize)>) -> bool {
        match r {
            Some((x, y)) => {
                &&& local_in_bounds(x as int, y as int)
                &&& if self.in_foreground(h) {
                    self.foreground()[slot_of(x as int, y as int)] == h
                } else {
                    self.background()[slot_of(x as int, y as int)] == h
                }
            },
            None => !self.in_foreground(h) && !self.in_background(h),
        }
    }

    /// What `replace_at(x, y, h)` does: `after` is this chunk with the
    /// foreground at `(x, y)` set to `h`, and `r` is the prior occupant; out of
    /// bounds nothing changes and `r` is `None`.
    pub open spec fn replace_result(
        &self,
        x: int,
        y: int,
        h: TileHandle,
        after: Chunk,
        r: Option<TileHandle>,
    ) -> bool {
        &&& after.wf()
        &&& after.cx() == self.cx()
        &&& after.cy() == self.cy()
        &&& after.background() == self.background()
        &&& if local_in_bounds(x, y) {
            &&& r == Some(self.foreground()[slot_of(x, y)])
            &&& after.foreground() == self.foreground().update(slot_of(x, y), h)
        } else {
            &&& r.is_none()
            &&& after.foreground() == self.foreground()
        }
    }

    /// Builds a chunk at chunk coordinate `(x_pos, y_pos)` from row-major
    /// `(background, foreground)` pairs: the pair for local `(x, y)` is at
    /// `x + y * WIDTH`.
    pub fn new(cells: Vec<(TileHandle, TileHandle)>, x_pos: i64, y_pos: i64) -> (r: Self)
        requires
            cells@.len() == SIZE,
            chunk_coord_in_range(x_pos as int),
            chunk_coord_in_range(y_pos as int),
        ensures
            r.wf(),
            r.cx() == x_pos,
            r.cy() == y_pos,
            forall|i: int| 0 <= i < SIZE ==> #[trigger] r.background()[i] == cells@[i].0,
            forall|i: int| 0 <= i < SIZE ==> #[trigger] r.foreground()[i] == cells@[i].1,
    {
        let mut back: Vec<TileHandle> = Vec::new();
        let mut fore: Vec<TileHandle> = Vec::new();
        let mut i: usize = 0;
        while i < cells.len()
            invariant
                cells@.len() == SIZE,
                i <= SIZE,
                back@.len() == i,
                fore@.len() == i,
                forall|j: int| 0 <= j < i ==> #[trigger] back@[j] == cells@[j].0,
                forall|j: int| 0 <= j < i ==> #[trigger] fore@[j] == cells@[j].1,
            decreases SIZE - i,
        {
            back.push(cells[i].0);
            fore.push(cells[i].1);
            i = i + 1;
        }
        Chunk { background: Layer::new(back), foreground: Layer::new(fore), x_pos, y_pos }
    }

    pub fn x_pos(&self) -> (r: i64)
        ensures
            r == self.cx(),
    {
        self.x_pos
    }

    pub fn y_pos(&self) -> (r: i64)
        ensures
            r == self.cy(),
    {
        self.y_pos
    }

    /// The (background, foreground) pair at local `(x, y)`, or `None` when the
    /// position is outside the chunk.
    pub fn at(&self, x: usize, y: usize) -> (r: Option<(TileHandle, TileHandle)>)
        requires
            self.wf(),
        ensures
            local_in_bounds(x as int, y as int) ==> r == Some(self.cell(x as int, y as int)),
            !local_in_bounds(x as int, y as int) ==> r.is_none(),
    {
        if x < WIDTH && y < HEIGHT {
            let i = x + y * WIDTH;
            Some((self.background.get(i), self.foreground.get(i)))
        } else {
            None
        }
    }

    /// The local position of `h`: a foreground slot holding it if there is
    /// one, else a background slot holding it, else `None`.
    pub fn find(&self, h: TileHandle) -> (r: Option<(usize, usize)>)
        requires
            self.wf(),
        ensures
            self.find_result(h, r),
    {
        let found = match self.foreground.find(h) {
            Some(i) => Some(i),
            None => self.background.find(h),
        };
        match found {
            Some(i) => {
                proof {
                    lemma_slot_position(i as int);
                }
                Some((i % WIDTH, i / WIDTH))
            },
            None => None,
        }
    }

    /// Puts `h` in the foreground at local `(x, y)` and returns the handle it
    /// replaced, or `None` (and no change) when the position is outside the
    /// chunk.
    pub fn replace_at(&mut self, x: usize, y: usize, h: TileHandle) -> (r: Option<TileHandle>)
        requires
            old(self).wf(),
        ensures
            old(self).replace_result(x as int, y as int, h, *final(self), r),
    {
        if x < WIDTH && y < HEIGHT {
            Some(self.foreground.replace(x + y * WIDTH, h))
        } else {
            None
        }
    }
}

/// Looking up either handle of a cell finds that cell again, in a chunk
/// whose handles are all distinct.
pub proof fn lemma_find_at_round_trip(
    c: Chunk,
    x: int,
    y: int,
    found_fore: Option<(usize, usize)>,
    found_back: Option<(usize, usize)>,
)
    requires
        c.wf(),
        c.handles_distinct(),
        local_in_bounds(x, y),
        c.find_result(c.cell(x, y).1, found_fore),
        c.find_result(c.cell(x, y).0, found_back),
    ensures
        found_fore == Some((x as usize, y as usize)),
        found_back == Some((x as usize, y as usize)),
{
    let i = slot_of(x, y);
    assert(c.in_foreground(c.cell(x, y).1));
    assert(c.in_background(c.cell(x, y).0));
    assert(!c.in_foreground(c.cell(x, y).0));
}

/// Replacing the foreground of a cell by a handle new to the chunk returns
/// the prior occupant; afterwards the new handle is found at that cell and
/// the prior one is found nowhere in the chunk.
pub proof fn lemma_replace_then_find(
    before: Chunk,
    after: Chunk,
    x: int,
    y: int,
    h: TileHandle,
    r: Option<TileHandle>,
    found_new: Option<(usize, usize)>,
    found_prior: Option<(usize, usize)>,
)
    requires
        before.wf(),
        before.handles_distinct(),
        local_in_bounds(x, y),
        !before.in_foreground(h),
        !before.in_background(h),
        before.replace_result(x, y, h, after, r),
        after.find_result(h, found_new),
        after.find_result(before.cell(x, y).1, found_prior),
    ensures
        r == Some(before.cell(x, y).1),
        found_new == Some((x as usize, y as usize)),
        found_prior.is_none(),
        found_prior != Some((x as usize, y as usize)),
{
    let i = slot_of(x, y);
    let prior = before.cell(x, y).1;
    assert(after.foreground()[i] == h);
    assert(after.in_foreground(h));
    assert(forall|j: int| 0 <= j < SIZE && j != i ==> after.foreground()[j] == before.foreground()[j]);
    assert(!after.in_foreground(prior));
    assert(!after.in_background(prior));
}

} // verus!
