//! Mapping between absolute tile coordinates and (chunk, local offset) pairs.
//!
//! Chunk coordinates use floored division, so a tile west or south of the
//! origin lands in a negative chunk with a non-negative local offset.
use vstd::prelude::*;

verus! {

/// Width and height of a chunk, in tiles.
pub const CHUNK_SIZE: i64 = 64;

/// Smallest chunk coordinate whose tiles all have an `i64` coordinate.
pub const CHUNK_COORD_MIN: i64 = -144115188075855872;

/// Largest chunk coordinate whose tiles all have an `i64` coordinate.
pub const CHUNK_COORD_MAX: i64 = 144115188075855871;

/// The chunk that holds absolute coordinate `a` (floored division).
pub open spec fn chunk_of(a: int) -> int {
    a / 64
}

/// The offset of absolute coordinate `a` inside its chunk (always in `0..64`).
pub open spec fn local_of(a: int) -> int {
    a % 64
}

/// The absolute coordinate of offset `l` in chunk `c`.
pub open spec fn absolute_of(c: int, l: int) -> int {
    c * 64 + l
}

/// Whether `c` is a chunk coordinate all of whose tiles are addressable by `i64`.
pub open spec fn chunk_coord_in_range(c: int) -> bool {
    CHUNK_COORD_MIN <= c <= CHUNK_COORD_MAX
}

proof fn lemma_floor_split(a: int, c: int, l: int)
    requires
        0 <= l < 64,
        a == c * 64 + l,
    ensures
        chunk_of(a) == c,
        local_of(a) == l,
{
    vstd::arithmetic::div_mod::lemma_fundamental_div_mod_converse(a, 64, c, l);
}

/// Splits an absolute coordinate into its chunk coordinate and local offset.
pub fn to_chunk_local(a: i64) -> (r: (i64, u32))
    ensures
        r.0 == chunk_of(a as int),
        r.1 == local_of(a as int),
        0 <= r.1 < 64,
        r.0 * 64 + r.1 == a,
        chunk_coord_in_range(r.0 as int),
{
    if a >= 0 {
        let u: u64 = a as u64;
        let q: u64 = u / 64;
        let r: u64 = u % 64;
        proof {
            vstd::arithmetic::div_mod::lemma_fundamental_div_mod(u as int, 64);
            lemma_floor_split(a as int, q as int, r as int);
        }
        (q as i64, r as u32)
    } else {
        let m: u64 = (-(a + 1)) as u64;
        let q: u64 = m / 64;
        let r: u64 = m % 64;
        proof {
            vstd::arithmetic::div_mod::lemma_fundamental_div_mod(m as int, 64);
            lemma_floor_split(a as int, -(q as int) - 1, 63 - r);
        }
        (-(q as i64) - 1, (63 - r) as u32)
    }
}

/// Joins a chunk coordinate and a local offset into an absolute coordinate.
pub fn from_chunk_local(c: i64, l: u32) -> (r: i64)
    requires
        i64::MIN <= c * 64 + l <= i64::MAX,
    ensures
        r == absolute_of(c as int, l as int),
{
    ((c as i128) * 64 + l as i128) as i64
}

/// Splitting a coordinate and joining the parts gives the coordinate back.
pub proof fn lemma_split_then_join(a: int)
    ensures
        0 <= local_of(a) < 64,
        absolute_of(chunk_of(a), local_of(a)) == a,
{
    vstd::arithmetic::div_mod::lemma_fundamental_div_mod(a, 64);
}

/// Joining a chunk coordinate with an offset below the chunk size and
/// splitting the result gives the same pair back.
pub proof fn lemma_join_then_split(c: int, l: int)
    requires
        0 <= l < 64,
    ensures
        chunk_of(absolute_of(c, l)) == c,
        local_of(absolute_of(c, l)) == l,
{
    lemma_floor_split(absolute_of(c, l), c, l);
}

} // verus!
