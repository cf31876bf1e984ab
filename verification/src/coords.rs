//! Global and chunk-local coordinates, and the floor-division mapping
//! between them.
//!
//! A chunk covers 16 x 16 blocks horizontally and the full world height of
//! 256 blocks vertically, so a chunk is identified by its integer (x, z)
//! pair alone. Global block coordinates map to a chunk and a local offset
//! by Euclidean division, which keeps local offsets non-negative for
//! negative global coordinates.

use vstd::arithmetic::div_mod::lemma_fundamental_div_mod;
use vstd::prelude::*;

verus! {

/// Horizontal extent of a chunk in blocks, along both x and z.
pub const CHUNK_SIZE: i32 = 16;

/// Vertical extent of a chunk in blocks: the full world height.
pub const WORLD_HEIGHT: i32 = 256;

/// Global (or chunk-local) block coordinates.
#[derive(Clone, Copy, PartialEq, Eq, Structural, Debug)]
pub struct BlockCoords {
    pub x: i32,
    pub y: i32,
    pub z: i32,
}

/// Coordinates of a chunk in the horizontal chunk grid.
#[derive(Clone, Copy, PartialEq, Eq, Structural, Debug)]
pub struct ChunkCoords {
    pub x: i32,
    pub z: i32,
}

/// The chunk that the given global coordinate falls in, along one axis:
/// the floor of division by the chunk size.
pub open spec fn chunk_of(g: int) -> int {
    g / 16
}

/// The local offset of the given global coordinate within its chunk, along
/// one axis: always in [0, 16).
pub open spec fn local_of(g: int) -> int {
    g % 16
}

/// Euclidean division of a global coordinate by the chunk size.
fn div16(g: i32) -> (q: i32)
    ensures
        q == chunk_of(g as int),
{
    let q = g.checked_div_euclid(CHUNK_SIZE);
    q.unwrap()
}

/// Euclidean remainder of a global coordinate by the chunk size.
fn rem16(g: i32) -> (r: i32)
    ensures
        r == local_of(g as int),
        0 <= r < 16,
{
    let r = g.checked_rem_euclid(CHUNK_SIZE);
    r.unwrap()
}

/// The chunk containing the given global block coordinates.
pub fn get_chunk_coords(block_coords: BlockCoords) -> (r: ChunkCoords)
    ensures
        r.x == chunk_of(block_coords.x as int),
        r.z == chunk_of(block_coords.z as int),
{
    ChunkCoords { x: div16(block_coords.x), z: div16(block_coords.z) }
}

/// Splits global block coordinates into the containing chunk and the
/// block's local coordinates within that chunk. The local x and z always
/// lie in [0, 16); y is global (a chunk spans the full world height).
pub fn to_local_chunk_coords(block_coords: BlockCoords) -> (r: (ChunkCoords, BlockCoords))
    ensures
        r.0.x == chunk_of(block_coords.x as int),
        r.0.z == chunk_of(block_coords.z as int),
        r.1.x == local_of(block_coords.x as int),
        r.1.z == local_of(block_coords.z as int),
        r.1.y == block_coords.y,
        0 <= r.1.x < 16,
        0 <= r.1.z < 16,
{
    let chunk = get_chunk_coords(block_coords);
    let local = BlockCoords { x: rem16(block_coords.x), y: block_coords.y, z: rem16(block_coords.z) };
    (chunk, local)
}

/// Coordinate round-trip: recombining the chunk coordinate and the local
/// offset that `to_local_chunk_coords` yields reproduces the global
/// coordinate, for arbitrary integers including negative ones.
pub proof fn lemma_coords_round_trip(g: int)
    ensures
        16 * chunk_of(g) + local_of(g) == g,
        0 <= local_of(g) < 16,
{
    lemma_fundamental_div_mod(g, 16);
}

} // verus!
