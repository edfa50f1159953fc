//! The saved form of a chunk: for each slot in row-major order, the
//! background kind then the foreground kind, each as an 8-byte big-endian
//! unsigned integer. No header and no length prefix.
use crate::catalog::{TileId, BLOCKS};
use crate::layer::SIZE;
use crate::world::World;
use vstd::prelude::*;

verus! {

/// Bytes of one saved id.
pub const RECORD_BYTES: usize = 8;

/// Bytes of a saved chunk: two ids per slot.
pub const CHUNK_BYTES: usize = 65536;

/// Why saved bytes do not form a chunk.
#[derive(Clone, Copy, Debug, PartialEq, Eq, Structural)]
pub enum DecodeError {
    /// Fewer bytes than a whole chunk.
    Truncated,
    /// An id outside the catalog.
    UnknownTile,
}

/// The big-endian bytes of `v`, most significant first.
pub open spec fn be_bytes(v: u64) -> Seq<u8> {
    seq![
        (v >> 56u64) as u8,
        (v >> 48u64) as u8,
        (v >> 40u64) as u8,
        (v >> 32u64) as u8,
        (v >> 24u64) as u8,
        (v >> 16u64) as u8,
        (v >> 8u64) as u8,
        v as u8,
    ]
}

/// The value of eight big-endian bytes.
pub open spec fn be_join(b0: u8, b1: u8, b2: u8, b3: u8, b4: u8, b5: u8, b6: u8, b7: u8) -> u64 {
    (b0 as u64) << 56u64 | (b1 as u64) << 48u64 | (b2 as u64) << 40u64 | (b3 as u64) << 32u64 | (b4 as u64)
        << 24u64 | (b5 as u64) << 16u64 | (b6 as u64) << 8u64 | (b7 as u64)
}

/// The `i`-th saved id in `b`.
pub open spec fn value_at(b: Seq<u8>, i: int) -> u64 {
    be_join(b[8 * i], b[8 * i + 1], b[8 * i + 2], b[8 * i + 3], b[8 * i + 4], b[8 * i + 5], b[8 * i + 6], b[8 * i + 7])
}

/// The saved form of a sequence of ids.
pub open spec fn encode_ids(ids: Seq<u64>) -> Seq<u8>
    decreases ids.len(),
{
    if ids.len() == 0 {
        Seq::empty()
    } else {
        encode_ids(ids.drop_last()) + be_bytes(ids.last())
    }
}

/// What saved bytes decode to: the (background, foreground) kind pair of
/// every slot, or the first error. Bytes past a whole chunk are not read.
pub open spec fn spec_decode(b: Seq<u8>) -> Result<Seq<(TileId, TileId)>, DecodeError> {
    if b.len() < CHUNK_BYTES {
        Err(DecodeError::Truncated)
    } else if exists|i: int| 0 <= i < 2 * SIZE && #[trigger] value_at(b, i) >= BLOCKS {
        Err(DecodeError::UnknownTile)
    } else {
        Ok(Seq::new(SIZE as nat, |s: int| (value_at(b, 2 * s) as TileId, value_at(b, 2 * s + 1) as TileId)))
    }
}

/// The ids a chunk saves: background then foreground kind of each slot.
pub open spec fn chunk_ids(w: World, i: int) -> Seq<u64> {
    Seq::new(
        2 * SIZE as nat,
        |j: int|
            if j % 2 == 0 {
                w.kinds()[w.chunks()[i].background()[j / 2] as int] as u64
            } else {
                w.kinds()[w.chunks()[i].foreground()[j / 2] as int] as u64
            },
    )
}

proof fn lemma_encode_len(ids: Seq<u64>)
    ensures
        encode_ids(ids).len() == 8 * ids.len(),
    decreases ids.len(),
{
    if ids.len() > 0 {
        lemma_encode_len(ids.drop_last());
    }
}

proof fn lemma_encode_index(ids: Seq<u64>, i: int, k: int)
    requires
        0 <= i < ids.len(),
        0 <= k < 8,
    ensures
        encode_ids(ids)[8 * i + k] == be_bytes(ids[i])[k],
    decreases ids.len(),
{
    lemma_encode_len(ids.drop_last());
    if i < ids.len() - 1 {
        lemma_encode_index(ids.drop_last(), i, k);
    }
}

proof fn lemma_join_bytes(v: u64)
    ensures
        be_join(
            (v >> 56u64) as u8,
            (v >> 48u64) as u8,
            (v >> 40u64) as u8,
            (v >> 32u64) as u8,
            (v >> 24u64) as u8,
            (v >> 16u64) as u8,
            (v >> 8u64) as u8,
            v as u8,
        ) == v,
{
    assert(((((v >> 56u64) as u8) as u64) << 56u64 | (((v >> 48u64) as u8) as u64) << 48u64 | (((v
        >> 40u64) as u8) as u64) << 40u64 | (((v >> 32u64) as u8) as u64) << 32u64 | (((v >> 24u64) as u8)
        as u64) << 24u64 | (((v >> 16u64) as u8) as u64) << 16u64 | (((v >> 8u64) as u8) as u64) << 8u64
        | ((v as u8) as u64)) == v) by (bit_vector);
}

/// Decoding the saved form of valid ids gives back each slot's pair, in
/// row-major order.
pub proof fn lemma_decode_encode(ids: Seq<u64>)
    requires
        ids.len() == 2 * SIZE,
        forall|i: int| 0 <= i < ids.len() ==> #[trigger] ids[i] < BLOCKS,
    ensures
        spec_decode(encode_ids(ids)) == Ok::<Seq<(TileId, TileId)>, DecodeError>(
            Seq::new(SIZE as nat, |s: int| (ids[2 * s] as TileId, ids[2 * s + 1] as TileId)),
        ),
{
    let b = encode_ids(ids);
    lemma_encode_len(ids);
    assert forall|i: int| 0 <= i < 2 * SIZE implies #[trigger] value_at(b, i) == ids[i] by {
        lemma_encode_index(ids, i, 0);
        lemma_encode_index(ids, i, 1);
        lemma_encode_index(ids, i, 2);
        lemma_encode_index(ids, i, 3);
        lemma_encode_index(ids, i, 4);
        lemma_encode_index(ids, i, 5);
        lemma_encode_index(ids, i, 6);
        lemma_encode_index(ids, i, 7);
        lemma_join_bytes(ids[i]);
    }
    assert(spec_decode(b).unwrap() =~= Seq::new(
        SIZE as nat,
        |s: int| (ids[2 * s] as TileId, ids[2 * s + 1] as TileId),
    ));
}

/// Appends the saved form of `v` to `out`.
fn push_id(out: &mut Vec<u8>, v: u64)
    ensures
        final(out)@ == old(out)@ + be_bytes(v),
{
    out.push((v >> 56u64) as u8);
    out.push((v >> 48u64) as u8);
    out.push((v >> 40u64) as u8);
    out.push((v >> 32u64) as u8);
    out.push((v >> 24u64) as u8);
    out.push((v >> 16u64) as u8);
    out.push((v >> 8u64) as u8);
    out.push(v as u8);
    proof {
        assert(final(out)@ =~= old(out)@ + be_bytes(v));
    }
}

/// The saved form of the chunk at chunk coordinate `(cx, cy)`, or `None`
/// when no chunk is loaded there.
pub fn encode_chunk(w: &World, cx: i64, cy: i64) -> (r: Option<Vec<u8>>)
    requires
        w.wf(),
    ensures
        match w.chunk_index(cx as int, cy as int) {
            Some(i) => r is Some && r.unwrap()@ == encode_ids(chunk_ids(*w, i)),
            None => r is None,
        },
{
    let c = match w.find_chunk(cx, cy) {
        Some(c) => c,
        None => return None,
    };
    let ghost i = w.chunk_index(cx as int, cy as int).unwrap();
    let ghost ids = chunk_ids(*w, i);
    let mut out: Vec<u8> = Vec::new();
    let mut s: usize = 0;
    while s < SIZE
        invariant
            w.wf(),
            c.wf(),
            0 <= i < w.chunks().len(),
            *c == w.chunks()[i],
            ids == chunk_ids(*w, i),
            s <= SIZE,
            out@ == encode_ids(ids.take(2 * s)),
        decreases SIZE - s,
    {
        let (back, fore) = match c.at(s % 64, s / 64) {
            Some(p) => p,
            None => return None,
        };
        proof {
            vstd::arithmetic::div_mod::lemma_fundamental_div_mod(s as int, 64);
            w.lemma_chunk_records(i, s as int);
        }
        let kb = match w.kind_of(back) {
            Some(k) => k,
            None => return None,
        };
        let kf = match w.kind_of(fore) {
            Some(k) => k,
            None => return None,
        };
        push_id(&mut out, kb as u64);
        proof {
            assert((2 * s) % 2 == 0 && (2 * s) / 2 == s);
            assert(ids[2 * s] == kb as u64);
            assert(ids.take(2 * s + 1).drop_last() =~= ids.take(2 * s));
            assert(ids.take(2 * s + 1).last() == kb as u64);
            assert(encode_ids(ids.take(2 * s + 1)) == encode_ids(ids.take(2 * s)) + be_bytes(kb as u64));
            assert(out@ == encode_ids(ids.take(2 * s + 1)));
        }
        push_id(&mut out, kf as u64);
        proof {
            assert((2 * s + 1) % 2 == 1 && (2 * s + 1) / 2 == s);
            assert(ids[2 * s + 1] == kf as u64);
            assert(ids.take(2 * s + 2).drop_last() =~= ids.take(2 * s + 1));
            assert(ids.take(2 * s + 2).last() == kf as u64);
            assert(encode_ids(ids.take(2 * s + 2)) == encode_ids(ids.take(2 * s + 1)) + be_bytes(kf as u64));
        }
        s = s + 1;
    }
    proof {
        assert(ids.take(2 * SIZE) =~= ids);
    }
    Some(out)
}

/// Reads the saved form of a chunk.
pub fn decode_chunk(b: &Vec<u8>) -> (r: Result<Vec<(TileId, TileId)>, DecodeError>)
    ensures
        match r {
            Ok(cells) => spec_decode(b@) == Ok::<Seq<(TileId, TileId)>, DecodeError>(cells@),
            Err(e) => spec_decode(b@) == Err::<Seq<(TileId, TileId)>, DecodeError>(e),
        },
{
    if b.len() < CHUNK_BYTES {
        return Err(DecodeError::Truncated);
    }
    let mut cells: Vec<(TileId, TileId)> = Vec::new();
    let mut s: usize = 0;
    while s < SIZE
        invariant
            b@.len() >= CHUNK_BYTES,
            s <= SIZE,
            cells@.len() == s,
            forall|i: int| 0 <= i < 2 * s ==> #[trigger] value_at(b@, i) < BLOCKS,
            forall|t: int|
                0 <= t < s ==> #[trigger] cells@[t] == (value_at(b@, 2 * t) as TileId, value_at(b@, 2 * t + 1) as TileId),
        decreases SIZE - s,
    {
        let back = read_id(b, 2 * s);
        let fore = read_id(b, 2 * s + 1);
        if back >= BLOCKS as u64 || fore >= BLOCKS as u64 {
            proof {
                assert(value_at(b@, 2 * s) >= BLOCKS || value_at(b@, 2 * s + 1) >= BLOCKS);
            }
            return Err(DecodeError::UnknownTile);
        }
        cells.push((back as TileId, fore as TileId));
        s = s + 1;
    }
    proof {
        assert(cells@ =~= spec_decode(b@).unwrap());
    }
    Ok(cells)
}

/// The `i`-th saved id in `b`.
fn read_id(b: &Vec<u8>, i: usize) -> (r: u64)
    requires
        8 * i + 8 <= b@.len(),
    ensures
        r == value_at(b@, i as int),
{
    let n = b.len();
    let at = 8 * i;
    (b[at] as u64) << 56u64 | (b[at + 1] as u64) << 48u64 | (b[at + 2] as u64) << 40u64 | (b[at + 3] as u64)
        << 32u64 | (b[at + 4] as u64) << 24u64 | (b[at + 5] as u64) << 16u64 | (b[at + 6] as u64) << 8u64
        | (b[at + 7] as u64)
}

/// Saving a loaded chunk and reading the bytes back gives each slot's
/// (background, foreground) kinds, in row-major order.
pub proof fn lemma_save_then_read(w: World, i: int)
    requires
        w.wf(),
        0 <= i < w.chunks().len(),
    ensures
        spec_decode(encode_ids(chunk_ids(w, i))) == Ok::<Seq<(TileId, TileId)>, DecodeError>(
            Seq::new(
                SIZE as nat,
                |s: int|
                    (
                        w.kinds()[w.chunks()[i].background()[s] as int],
                        w.kinds()[w.chunks()[i].foreground()[s] as int],
                    ),
            ),
        ),
{
    let ids = chunk_ids(w, i);
    assert forall|j: int| 0 <= j < ids.len() implies #[trigger] ids[j] < BLOCKS by {
        w.lemma_chunk_records(i, j / 2);
    }
    lemma_decode_encode(ids);
    assert forall|s: int| 0 <= s < SIZE implies ids[2 * s] == w.kinds()[w.chunks()[i].background()[s] as int]
        && ids[2 * s + 1] == w.kinds()[w.chunks()[i].foreground()[s] as int] by {
        w.lemma_chunk_records(i, s);
    }
    assert(Seq::new(SIZE as nat, |s: int| (ids[2 * s] as TileId, ids[2 * s + 1] as TileId)) =~= Seq::new(
        SIZE as nat,
        |s: int|
            (
                w.kinds()[w.chunks()[i].background()[s] as int],
                w.kinds()[w.chunks()[i].foreground()[s] as int],
            ),
    ));
}

} // verus!
