//! One plane of tile handles in a chunk, with its reverse index.
use std::collections::HashMap;
use vstd::prelude::*;

verus! {

/// Handle of a tile record in the world's tile arena.
pub type TileHandle = u64;

/// Number of slots in a chunk plane.
pub const SIZE: usize = 4096;

/// A row-major plane of `SIZE` tile handles and a map from each handle to a
/// slot that holds it.
pub struct Layer {
    slots: Vec<TileHandle>,
    index: HashMap<TileHandle, usize>,
}

/// The first position of `h` in `v`.
fn position_of(v: &Vec<TileHandle>, h: TileHandle) -> (r: Option<usize>)
    ensures
        match r {
            Some(j) => j < v@.len() && v@[j as int] == h,
            None => forall|k: int| 0 <= k < v@.len() ==> v@[k] != h,
        },
{
    let mut j: usize = 0;
    while j < v.len()
        invariant
            j <= v@.len(),
            forall|k: int| 0 <= k < j ==> v@[k] != h,
        decreases v@.len() - j,
    {
        if v[j] == h {
            return Some(j);
        }
        j = j + 1;
    }
    None
}

impl Layer {
    /// The handles, slot by slot.
    pub closed spec fn handles(&self) -> Seq<TileHandle> {
        self.slots@
    }

    /// The reverse index points each key at a slot that holds it, and holds
    /// every handle of the plane.
    pub closed spec fn index_consistent(&self) -> bool {
        &&& forall|h: TileHandle| #[trigger] self.index@.contains_key(h) ==> {
            &&& self.index@[h] < SIZE
            &&& self.slots@[self.index@[h] as int] == h
        }
        &&& forall|i: int| 0 <= i < self.slots@.len() ==> self.index@.contains_key(#[trigger] self.slots@[i])
    }

    pub open spec fn wf(&self) -> bool {
        &&& self.handles().len() == SIZE
        &&& self.index_consistent()
    }

    /// Builds a plane from its handles, in slot order.
    pub fn new(slots: Vec<TileHandle>) -> (r: Self)
        requires
            slots@.len() == SIZE,
        ensures
            r.wf(),
            r.handles() == slots@,
    {
        let mut index: HashMap<TileHandle, usize> = HashMap::new();
        let mut i: usize = 0;
        while i < slots.len()
            invariant
                slots@.len() == SIZE,
                i <= SIZE,
                forall|h: TileHandle| #[trigger] index@.contains_key(h) ==> {
                    &&& index@[h] < i
                    &&& slots@[index@[h] as int] == h
                },
                forall|j: int| 0 <= j < i ==> index@.contains_key(#[trigger] slots@[j]),
            decreases SIZE - i,
        {
            index.insert(slots[i], i);
            i = i + 1;
        }
        Layer { slots, index }
    }

    pub fn get(&self, i: usize) -> (r: TileHandle)
        requires
            self.wf(),
            i < SIZE,
        ensures
            r == self.handles()[i as int],
    {
        self.slots[i]
    }

    /// A slot that holds `h`, or `None` when no slot does.
    pub fn find(&self, h: TileHandle) -> (r: Option<usize>)
        requires
            self.wf(),
        ensures
            match r {
                Some(i) => i < SIZE && self.handles()[i as int] == h,
                None => forall|i: int| 0 <= i < SIZE ==> self.handles()[i] != h,
            },
    {
        match self.index.get(&h) {
            Some(i) => Some(*i),
            None => {
                proof {
                    assert forall|i: int| 0 <= i < SIZE implies self.handles()[i] != h by {
                        if self.handles()[i] == h {
                            assert(self.index@.contains_key(self.slots@[i]));
                        }
                    }
                }
                None
            },
        }
    }

    /// Puts `h` in slot `i` and returns the handle that was there.
    pub fn replace(&mut self, i: usize, h: TileHandle) -> (r: TileHandle)
        requires
            old(self).wf(),
            i < SIZE,
        ensures
            final(self).wf(),
            r == old(self).handles()[i as int],
            final(self).handles() == old(self).handles().update(i as int, h),
    {
        let prior = self.slots[i];
        self.slots.set(i, h);
        self.index.insert(h, i);
        if prior != h {
            let pointed_here = match self.index.get(&prior) {
                Some(j) => *j == i,
                None => false,
            };
            if pointed_here {
                self.index.remove(&prior);
                match position_of(&self.slots, prior) {
                    Some(j) => {
                        self.index.insert(prior, j);
                    },
                    None => {},
                }
            }
        }
        prior
    }
}

} // verus!
