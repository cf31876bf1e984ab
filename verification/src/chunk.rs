//! Dense per-chunk voxel storage: one cell per block position, holding the
//! block identifier and the two 4-bit light channels.

use vstd::arithmetic::div_mod::{
    lemma_fundamental_div_mod, lemma_fundamental_div_mod_converse_div,
    lemma_fundamental_div_mod_converse_mod,
};
use vstd::prelude::*;

use crate::blocks::{id_transparent, spec_block_of, Block, BlockId};
use crate::graphics::ChunkGraphics;

verus! {

/// One light channel value; always kept in [0, 15].
pub type LightLevel = u8;

/// Number of cells in a chunk: 16 x 256 x 16.
pub const CELL_COUNT: usize = 65536;

/// One block position's data: its block and the two light channels.
#[derive(Clone, Copy, PartialEq, Eq, Structural, Debug)]
pub struct Cell {
    pub block_id: BlockId,
    pub sun_light: LightLevel,
    pub block_light: LightLevel,
}

impl Cell {
    /// The block table entry of this cell's block.
    pub fn get_block(&self) -> (r: Block)
        ensures
            r == spec_block_of(self.block_id),
    {
        Block::by_id(self.block_id)
    }
}

/// Lifecycle of a chunk: freshly created, holding stale geometry, or with
/// geometry that matches its cells.
#[derive(Clone, Copy, PartialEq, Eq, Structural, Debug)]
pub enum ChunkStatus {
    NotGenerated,
    GraphicsOutdated,
    Ready,
}

/// The linear index of local coordinates (x, y, z) in a chunk's cell
/// vector, with 0 <= x < 16, 0 <= y < 256, 0 <= z < 16.
pub open spec fn cell_idx(x: int, y: int, z: int) -> int {
    (x * 256 + y) * 16 + z
}

/// Whether local coordinates lie inside a chunk.
pub open spec fn in_chunk_bounds(x: int, y: int, z: int) -> bool {
    0 <= x < 16 && 0 <= y < 256 && 0 <= z < 16
}

/// Both light channels of every cell lie in [0, 15].
pub open spec fn lights_bounded(cells: Seq<Cell>) -> bool {
    forall|i: int|
        0 <= i < cells.len() ==> (#[trigger] cells[i]).sun_light <= 15 && cells[i].block_light
            <= 15
}

/// A fixed-size dense grid of cells covering 16 x 256 x 16 block
/// positions, with a lifecycle status and its current geometry, if any.
pub struct Chunk {
    pub data: Vec<Cell>,
    pub status: ChunkStatus,
    pub graphics: Option<ChunkGraphics>,
}

impl Chunk {
    /// A chunk is well formed when it holds exactly one cell per position
    /// and every light value is in range.
    pub open spec fn wf(self) -> bool {
        self.data@.len() == CELL_COUNT && lights_bounded(self.data@)
    }

    /// The cell at local coordinates (x, y, z).
    pub open spec fn spec_cell(self, x: int, y: int, z: int) -> Cell {
        self.data@[cell_idx(x, y, z)]
    }

    /// A fresh chunk: all air, all dark, not yet generated.
    pub fn new() -> (r: Chunk)
        ensures
            r.wf(),
            r.status == ChunkStatus::NotGenerated,
            r.graphics is None,
            forall|i: int|
                0 <= i < CELL_COUNT ==> r.data@[i] == (Cell {
                    block_id: BlockId::Air,
                    sun_light: 0,
                    block_light: 0,
                }),
    {
        let mut data: Vec<Cell> = Vec::with_capacity(CELL_COUNT);
        let empty = Cell { block_id: BlockId::Air, sun_light: 0, block_light: 0 };
        let mut i: usize = 0;
        while i < CELL_COUNT
            invariant
                i <= CELL_COUNT,
                data@.len() == i,
                forall|j: int| 0 <= j < i ==> data@[j] == empty,
            decreases CELL_COUNT - i,
        {
            data.push(empty);
            i = i + 1;
        }
        Chunk { data, status: ChunkStatus::NotGenerated, graphics: None }
    }

    /// The cell at in-bounds local coordinates.
    pub fn get(&self, x: usize, y: usize, z: usize) -> (r: Cell)
        requires
            self.wf(),
            in_chunk_bounds(x as int, y as int, z as int),
        ensures
            r == self.spec_cell(x as int, y as int, z as int),
    {
        let idx: usize = (x * 256 + y) * 16 + z;
        self.data[idx]
    }

    /// Overwrites the cell at in-bounds local coordinates.
    pub fn set(&mut self, x: usize, y: usize, z: usize, cell: Cell)
        requires
            old(self).wf(),
            in_chunk_bounds(x as int, y as int, z as int),
        ensures
            final(self).data@ == old(self).data@.update(cell_idx(x as int, y as int, z as int), cell),
            final(self).status == old(self).status,
            final(self).graphics == old(self).graphics,
    {
        let idx: usize = (x * 256 + y) * 16 + z;
        self.data[idx] = cell;
    }

    /// Marks geometry stale if the chunk had up-to-date geometry.
    pub fn invalidate_graphics(&mut self)
        ensures
            final(self).data == old(self).data,
            final(self).graphics == old(self).graphics,
            final(self).status == (if old(self).status == ChunkStatus::Ready {
                ChunkStatus::GraphicsOutdated
            } else {
                old(self).status
            }),
    {
        if matches!(self.status, ChunkStatus::Ready) {
            self.status = ChunkStatus::GraphicsOutdated;
        }
    }
}

/// The block identifier at a linear cell index is transparent.
pub open spec fn cell_transparent(cells: Seq<Cell>, i: int) -> bool {
    id_transparent(cells[i].block_id)
}

/// The local x coordinate of a linear cell index.
pub open spec fn ix(i: int) -> int {
    i / 4096
}

/// The local y coordinate of a linear cell index.
pub open spec fn iy(i: int) -> int {
    (i / 16) % 256
}

/// The local z coordinate of a linear cell index.
pub open spec fn iz(i: int) -> int {
    i % 16
}

/// `cell_idx` maps in-bounds coordinates into [0, 65536), and `ix`, `iy`,
/// `iz` recover the coordinates from the index.
pub proof fn lemma_idx_of_coords(x: int, y: int, z: int)
    requires
        in_chunk_bounds(x, y, z),
    ensures
        0 <= cell_idx(x, y, z) < 65536,
        ix(cell_idx(x, y, z)) == x,
        iy(cell_idx(x, y, z)) == y,
        iz(cell_idx(x, y, z)) == z,
{
    let i = cell_idx(x, y, z);
    assert(i == x * 4096 + (y * 16 + z));
    lemma_fundamental_div_mod_converse_div(i, 4096, x, y * 16 + z);
    lemma_fundamental_div_mod_converse_div(i, 16, x * 256 + y, z);
    lemma_fundamental_div_mod_converse_mod(i, 16, x * 256 + y, z);
    lemma_fundamental_div_mod_converse_mod(x * 256 + y, 256, x, y);
}

/// Every linear index in [0, 65536) is the index of its recovered
/// coordinates, which are in bounds.
pub proof fn lemma_coords_of_idx(i: int)
    requires
        0 <= i < 65536,
    ensures
        in_chunk_bounds(ix(i), iy(i), iz(i)),
        cell_idx(ix(i), iy(i), iz(i)) == i,
{
    lemma_fundamental_div_mod(i, 16);
    lemma_fundamental_div_mod(i / 16, 256);
    lemma_fundamental_div_mod(i, 4096);
    assert(i / 16 / 256 == i / 4096) by {
        lemma_fundamental_div_mod_converse_div(
            i,
            4096,
            i / 16 / 256,
            (i / 16) % 256 * 16 + i % 16,
        );
    }
}

/// `lemma_idx_of_coords`, quantified over all in-bounds coordinates.
pub proof fn lemma_idx_of_coords_all()
    ensures
        forall|x: int, y: int, z: int|
            in_chunk_bounds(x, y, z) ==> {
                &&& 0 <= #[trigger] cell_idx(x, y, z) < 65536
                &&& ix(cell_idx(x, y, z)) == x
                &&& iy(cell_idx(x, y, z)) == y
                &&& iz(cell_idx(x, y, z)) == z
            },
{
    assert forall|x: int, y: int, z: int| in_chunk_bounds(x, y, z) implies {
        &&& 0 <= #[trigger] cell_idx(x, y, z) < 65536
        &&& ix(cell_idx(x, y, z)) == x
        &&& iy(cell_idx(x, y, z)) == y
        &&& iz(cell_idx(x, y, z)) == z
    } by {
        lemma_idx_of_coords(x, y, z);
    }
}

/// `lemma_coords_of_idx`, quantified over all linear indices.
pub proof fn lemma_coords_of_idx_all()
    ensures
        forall|i: int|
            0 <= i < 65536 ==> in_chunk_bounds(#[trigger] ix(i), iy(i), iz(i)) && cell_idx(
                ix(i),
                iy(i),
                iz(i),
            ) == i,
{
    assert forall|i: int| 0 <= i < 65536 implies in_chunk_bounds(#[trigger] ix(i), iy(i), iz(i))
        && cell_idx(ix(i), iy(i), iz(i)) == i by {
        lemma_coords_of_idx(i);
    }
}

} // verus!
