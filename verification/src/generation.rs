//! Terrain filling for one chunk from per-column sampled inputs.
//!
//! The noise sampling itself is floating-point work done by the caller;
//! the generator here is a pure function of the sampled values: terrain
//! height, sand height and decoration choice per column, and a cave
//! carve mask per cell. A column is filled bottom to top with stone,
//! dirt, a grass or sand surface and water up to the sea level; a
//! decoration pass then places flowers and stamps trees, whose writes
//! outside the chunk are silently dropped, so trees near an edge are
//! truncated. The inputs cover the chunk plus a two-column padding band
//! so that trees rooted just outside still reach in.

use vstd::prelude::*;

use crate::blocks::BlockId;
use crate::chunk::{
    cell_idx, in_chunk_bounds, ix, iy, iz, lemma_coords_of_idx, lemma_idx_of_coords,
    lemma_idx_of_coords_all, lights_bounded, Cell, CELL_COUNT,
};
use crate::coords::ChunkCoords;
use crate::world::{
    find_slot, lemma_find_props, lemma_find_props_all, lemma_find_same_coords_all, same_aux,
    World,
};

verus! {

/// Sea level: water fills every cell from the surface up to this height.
pub const WATER_HEIGHT: i32 = 27;

/// Width of the padding band of sampled columns around the chunk.
pub const GEN_PAD: usize = 2;

/// Sampled columns per generated chunk: the 16 x 16 chunk plus the
/// two-column padding band on each side.
pub const GEN_COLS: usize = 400;

/// Decoration choice for one column, already decided from the column's
/// deterministic hash by the caller.
#[derive(Clone, Copy, PartialEq, Eq, Structural, Debug)]
pub enum Plant {
    Bare,
    Red,
    Yellow,
    Tree,
}

/// Sampled inputs for one column of the padded generation region.
pub struct ColumnInput {
    /// Terrain height of the column.
    pub height: i32,
    /// Noise-jittered sand threshold: a surface at or below it is sand.
    pub sand_height: i32,
    /// Decoration choice for the column.
    pub plant: Plant,
    /// Cave carve mask, one flag per cell of the column.
    pub cave: Vec<bool>,
}

/// The index of the padded column (x, z) in the input vector, with
/// -2 <= x < 18 and -2 <= z < 18.
pub open spec fn col_idx(x: int, z: int) -> int {
    (x + 2) * 20 + (z + 2)
}

/// Inputs that cover the padded region with sane magnitudes.
pub open spec fn gen_inputs_wf(inputs: Seq<ColumnInput>) -> bool {
    &&& inputs.len() == GEN_COLS
    &&& forall|k: int|
        0 <= k < GEN_COLS ==> {
            &&& -100000 <= (#[trigger] inputs[k]).height <= 100000
            &&& -100000 <= inputs[k].sand_height <= 100000
            &&& inputs[k].cave@.len() == 256
        }
}

/// The block the base column fill policy puts at local (x, y, z): stone
/// below the dirt layer unless carved into a cave, three cells of dirt,
/// a grass or sand surface, and water up to the sea level.
pub open spec fn base_block(inputs: Seq<ColumnInput>, x: int, y: int, z: int) -> BlockId {
    let ci = inputs[col_idx(x, z)];
    let h = ci.height as int;
    if y < h - 3 {
        if ci.cave@[y] {
            BlockId::Air
        } else {
            BlockId::Stone
        }
    } else if y < h {
        BlockId::Dirt
    } else if y == h {
        if ci.height > ci.sand_height {
            BlockId::Grass
        } else {
            BlockId::Sand
        }
    } else if y <= WATER_HEIGHT as int {
        BlockId::Water
    } else {
        BlockId::Air
    }
}

/// The whole chunk after the base column fill, all dark.
pub open spec fn base_spec(inputs: Seq<ColumnInput>) -> Seq<Cell> {
    Seq::new(
        CELL_COUNT as nat,
        |i: int|
            Cell {
                block_id: base_block(inputs, ix(i), iy(i), iz(i)),
                sun_light: 0,
                block_light: 0,
            },
    )
}

/// One clipped block write: the cell keeps its light, out-of-chunk
/// coordinates are silently dropped.
pub open spec fn gset(cells: Seq<Cell>, x: int, y: int, z: int, id: BlockId) -> Seq<Cell> {
    if in_chunk_bounds(x, y, z) {
        let i = cell_idx(x, y, z);
        cells.update(
            i,
            Cell { block_id: id, sun_light: cells[i].sun_light, block_light: cells[i].block_light },
        )
    } else {
        cells
    }
}

/// A clipped box fill: every in-chunk cell within the inclusive ranges
/// takes the block, keeping its light.
pub open spec fn gfill(
    cells: Seq<Cell>,
    x0: int,
    x1: int,
    y0: int,
    y1: int,
    z0: int,
    z1: int,
    id: BlockId,
) -> Seq<Cell> {
    Seq::new(
        cells.len(),
        |i: int|
            if x0 <= ix(i) <= x1 && y0 <= iy(i) <= y1 && z0 <= iz(i) <= z1 {
                Cell {
                    block_id: id,
                    sun_light: cells[i].sun_light,
                    block_light: cells[i].block_light,
                }
            } else {
                cells[i]
            },
    )
}

/// The fixed tree shape stamped with its ground cell at (x, y, z): dirt
/// at the base, two flat leaf layers, and a trunk column written last.
pub open spec fn tree_spec(cells: Seq<Cell>, x: int, y: int, z: int) -> Seq<Cell> {
    let a = gset(cells, x, y, z, BlockId::Dirt);
    let b = gfill(a, x - 2, x + 2, y + 3, y + 4, z - 2, z + 2, BlockId::Leaves);
    let c = gfill(b, x - 1, x + 1, y + 5, y + 6, z - 1, z + 1, BlockId::Leaves);
    gfill(c, x, x, y + 1, y + 3, z, z, BlockId::Trunk)
}

/// The decoration of the single padded column k: a flower one block
/// above an in-chunk grass surface, or a tree stamped on a grass
/// surface anywhere in the padded region.
pub open spec fn decorate_col(inputs: Seq<ColumnInput>, cells: Seq<Cell>, k: int) -> Seq<Cell> {
    let x = k / 20 - 2;
    let z = k % 20 - 2;
    let ci = inputs[k];
    let h = ci.height as int;
    let grass = ci.height > ci.sand_height;
    let f = if grass && 0 <= x < 16 && 0 <= z < 16 && (ci.plant == Plant::Red || ci.plant
        == Plant::Yellow) {
        gset(
            cells,
            x,
            h + 1,
            z,
            if ci.plant == Plant::Red {
                BlockId::RedFlower
            } else {
                BlockId::YellowFlower
            },
        )
    } else {
        cells
    };
    if grass && ci.plant == Plant::Tree {
        tree_spec(f, x, h, z)
    } else {
        f
    }
}

/// The chunk after the first k columns' decorations, in column order.
pub open spec fn decorate_upto(inputs: Seq<ColumnInput>, cells: Seq<Cell>, k: int) -> Seq<Cell>
    decreases k,
{
    if k <= 0 {
        cells
    } else {
        decorate_col(inputs, decorate_upto(inputs, cells, k - 1), k - 1)
    }
}

/// The generated chunk: the base column fill, then every column's
/// decoration in order.
pub open spec fn gen_spec(inputs: Seq<ColumnInput>) -> Seq<Cell> {
    decorate_upto(inputs, base_spec(inputs), GEN_COLS as int)
}

/// One clipped block write; see `gset`.
fn place(cells: &mut Vec<Cell>, x: i32, y: i32, z: i32, id: BlockId)
    requires
        old(cells)@.len() == CELL_COUNT,
        lights_bounded(old(cells)@),
    ensures
        final(cells)@ == gset(old(cells)@, x as int, y as int, z as int, id),
        lights_bounded(final(cells)@),
{
    if 0 <= x && x < 16 && 0 <= y && y < 256 && 0 <= z && z < 16 {
        let i: usize = ((x as usize) * 256 + (y as usize)) * 16 + (z as usize);
        let c = cells[i];
        cells[i] = Cell { block_id: id, sun_light: c.sun_light, block_light: c.block_light };
    }
}

/// A clipped box fill; see `gfill`.
#[verifier::loop_isolation(false)]
fn fill(cells: &Vec<Cell>, x0: i32, x1: i32, y0: i32, y1: i32, z0: i32, z1: i32, id: BlockId) -> (r:
    Vec<Cell>)
    requires
        cells@.len() == CELL_COUNT,
        lights_bounded(cells@),
    ensures
        r@ == gfill(cells@, x0 as int, x1 as int, y0 as int, y1 as int, z0 as int, z1 as int, id),
        lights_bounded(r@),
{
    proof {
        lemma_idx_of_coords_all();
    }
    let ghost target = gfill(
        cells@,
        x0 as int,
        x1 as int,
        y0 as int,
        y1 as int,
        z0 as int,
        z1 as int,
        id,
    );
    let mut out: Vec<Cell> = Vec::with_capacity(CELL_COUNT);
    let mut x: usize = 0;
    while x < 16
        invariant
            x <= 16,
            out@.len() == x * 4096,
            forall|j: int| 0 <= j < out@.len() ==> out@[j] == target[j],
        decreases 16 - x,
    {
        let mut y: usize = 0;
        while y < 256
            invariant
                y <= 256,
                out@.len() == x * 4096 + y * 16,
                forall|j: int| 0 <= j < out@.len() ==> out@[j] == target[j],
            decreases 256 - y,
        {
            let mut z: usize = 0;
            while z < 16
                invariant
                    z <= 16,
                    out@.len() == x * 4096 + y * 16 + z,
                    forall|j: int| 0 <= j < out@.len() ==> out@[j] == target[j],
                decreases 16 - z,
            {
                let i: usize = (x * 256 + y) * 16 + z;
                let c = cells[i];
                let in_box = x0 <= (x as i32) && (x as i32) <= x1 && y0 <= (y as i32) && (y as i32)
                    <= y1 && z0 <= (z as i32) && (z as i32) <= z1;
                let cell = if in_box {
                    Cell { block_id: id, sun_light: c.sun_light, block_light: c.block_light }
                } else {
                    c
                };
                proof {
                    lemma_idx_of_coords(x as int, y as int, z as int);
                }
                out.push(cell);
                z = z + 1;
            }
            y = y + 1;
        }
        x = x + 1;
    }
    proof {
        assert(out@ =~= target);
    }
    out
}

/// Stamps the fixed tree shape; see `tree_spec`.
fn plant_tree(cells: &mut Vec<Cell>, x: i32, y: i32, z: i32)
    requires
        old(cells)@.len() == CELL_COUNT,
        lights_bounded(old(cells)@),
        -200000 <= x <= 200000,
        -200000 <= y <= 200000,
        -200000 <= z <= 200000,
    ensures
        final(cells)@ == tree_spec(old(cells)@, x as int, y as int, z as int),
        lights_bounded(final(cells)@),
{
    place(cells, x, y, z, BlockId::Dirt);
    let a = fill(cells, x - 2, x + 2, y + 3, y + 4, z - 2, z + 2, BlockId::Leaves);
    let b = fill(&a, x - 1, x + 1, y + 5, y + 6, z - 1, z + 1, BlockId::Leaves);
    let c = fill(&b, x, x, y + 1, y + 3, z, z, BlockId::Trunk);
    *cells = c;
}

/// Fills a fresh, dark cell grid from the sampled columns; see
/// `base_spec`.
#[verifier::loop_isolation(false)]
fn base_fill(inputs: &Vec<ColumnInput>) -> (r: Vec<Cell>)
    requires
        gen_inputs_wf(inputs@),
    ensures
        r@ == base_spec(inputs@),
        lights_bounded(r@),
{
    proof {
        lemma_idx_of_coords_all();
    }
    let ghost target = base_spec(inputs@);
    let mut out: Vec<Cell> = Vec::with_capacity(CELL_COUNT);
    let mut x: usize = 0;
    while x < 16
        invariant
            x <= 16,
            out@.len() == x * 4096,
            forall|j: int| 0 <= j < out@.len() ==> out@[j] == target[j],
        decreases 16 - x,
    {
        let mut y: usize = 0;
        while y < 256
            invariant
                y <= 256,
                out@.len() == x * 4096 + y * 16,
                forall|j: int| 0 <= j < out@.len() ==> out@[j] == target[j],
            decreases 256 - y,
        {
            let mut z: usize = 0;
            while z < 16
                invariant
                    z <= 16,
                    out@.len() == x * 4096 + y * 16 + z,
                    forall|j: int| 0 <= j < out@.len() ==> out@[j] == target[j],
                decreases 16 - z,
            {
                let k: usize = (x + 2) * 20 + (z + 2);
                let ci = &inputs[k];
                let yy: i32 = y as i32;
                let id = if yy < ci.height - 3 {
                    if ci.cave[y] {
                        BlockId::Air
                    } else {
                        BlockId::Stone
                    }
                } else if yy < ci.height {
                    BlockId::Dirt
                } else if yy == ci.height {
                    if ci.height > ci.sand_height {
                        BlockId::Grass
                    } else {
                        BlockId::Sand
                    }
                } else if yy <= WATER_HEIGHT {
                    BlockId::Water
                } else {
                    BlockId::Air
                };
                proof {
                    lemma_idx_of_coords(x as int, y as int, z as int);
                }
                out.push(Cell { block_id: id, sun_light: 0, block_light: 0 });
                z = z + 1;
            }
            y = y + 1;
        }
        x = x + 1;
    }
    proof {
        assert(out@ =~= target);
    }
    out
}

/// Generates the cells of one chunk from sampled column inputs; see
/// `gen_spec`. The result is a pure function of the inputs: identical
/// inputs give identical cells.
pub fn generate_cells(inputs: &Vec<ColumnInput>) -> (r: Vec<Cell>)
    requires
        gen_inputs_wf(inputs@),
    ensures
        r@ == gen_spec(inputs@),
        r@.len() == CELL_COUNT,
        lights_bounded(r@),
{
    let mut cells = base_fill(inputs);
    let mut k: usize = 0;
    while k < GEN_COLS
        invariant
            k <= GEN_COLS,
            gen_inputs_wf(inputs@),
            cells@.len() == CELL_COUNT,
            lights_bounded(cells@),
            cells@ == decorate_upto(inputs@, base_spec(inputs@), k as int),
        decreases GEN_COLS - k,
    {
        let x: i32 = (k / 20) as i32 - 2;
        let z: i32 = (k % 20) as i32 - 2;
        let ci = &inputs[k];
        let grass = ci.height > ci.sand_height;
        if grass && 0 <= x && x < 16 && 0 <= z && z < 16 && (matches!(ci.plant, Plant::Red)
            || matches!(ci.plant, Plant::Yellow)) {
            let id = if matches!(ci.plant, Plant::Red) {
                BlockId::RedFlower
            } else {
                BlockId::YellowFlower
            };
            place(&mut cells, x, ci.height + 1, z, id);
        }
        if grass && matches!(ci.plant, Plant::Tree) {
            plant_tree(&mut cells, x, ci.height, z);
        }
        k = k + 1;
    }
    cells
}

/// Installs freshly generated cells into the loaded chunk at the given
/// coordinates; every other chunk and every status stays as it was.
pub fn generate_chunk(world: &mut World, coords: ChunkCoords, inputs: &Vec<ColumnInput>)
    requires
        old(world).wf(),
        old(world).has_chunk(coords.x as int, coords.z as int),
        gen_inputs_wf(inputs@),
    ensures
        final(world).wf(),
        same_aux(*old(world), *final(world)),
        final(world).slots@.len() == old(world).slots@.len(),
        forall|x: int, z: int| final(world).has_chunk(x, z) == old(world).has_chunk(x, z),
        forall|x: int, z: int|
            (x != coords.x as int || z != coords.z as int) && old(world).has_chunk(x, z)
                ==> final(world).chunk_at(x, z) == old(world).chunk_at(x, z),
        final(world).chunk_at(coords.x as int, coords.z as int).data@ == gen_spec(inputs@),
        final(world).chunk_at(coords.x as int, coords.z as int).status == old(world).chunk_at(
            coords.x as int,
            coords.z as int,
        ).status,
{
    proof {
        lemma_find_props(world.slots@, 0, coords.x as int, coords.z as int);
    }
    let i = world.find(coords.x, coords.z).unwrap();
    let cells = generate_cells(inputs);
    let ghost s_old = world.slots@;
    let slot = &mut world.slots[i];
    slot.chunk.data = cells;
    proof {
        let s_new = world.slots@;
        lemma_find_same_coords_all(s_old, s_new);
        lemma_find_props_all(s_old);
        assert forall|x: int, z: int|
            (x != coords.x as int || z != coords.z as int) && old(world).has_chunk(x, z) implies
            world.chunk_at(x, z) == old(world).chunk_at(x, z) by {
            let j = find_slot(s_old, x, z);
            assert(0 <= j < s_old.len());
            assert(j != i as int);
            assert(s_new[j] == s_old[j]);
        }
    }
}

/// Determinism of generation: the generated cells depend only on the
/// sampled values in the inputs, so identical samples always give
/// byte-identical chunk contents, independent of load order.
pub proof fn lemma_generate_deterministic(i1: Seq<ColumnInput>, i2: Seq<ColumnInput>)
    requires
        gen_inputs_wf(i1),
        gen_inputs_wf(i2),
        forall|k: int|
            0 <= k < GEN_COLS ==> {
                &&& (#[trigger] i2[k]).height == i1[k].height
                &&& i2[k].sand_height == i1[k].sand_height
                &&& i2[k].plant == i1[k].plant
                &&& i2[k].cave@ == i1[k].cave@
            },
    ensures
        gen_spec(i2) == gen_spec(i1),
{
    assert forall|i: int| 0 <= i < CELL_COUNT implies base_spec(i2)[i] == base_spec(i1)[i] by {
        lemma_coords_of_idx(i);
    }
    assert(base_spec(i2) =~= base_spec(i1));
    lemma_decorate_deterministic(i1, i2, base_spec(i1), GEN_COLS as int);
}

/// The decoration fold also depends only on the sampled values.
proof fn lemma_decorate_deterministic(
    i1: Seq<ColumnInput>,
    i2: Seq<ColumnInput>,
    cells: Seq<Cell>,
    k: int,
)
    requires
        gen_inputs_wf(i1),
        gen_inputs_wf(i2),
        k <= GEN_COLS,
        forall|j: int|
            0 <= j < GEN_COLS ==> {
                &&& (#[trigger] i2[j]).height == i1[j].height
                &&& i2[j].sand_height == i1[j].sand_height
                &&& i2[j].plant == i1[j].plant
                &&& i2[j].cave@ == i1[j].cave@
            },
    ensures
        decorate_upto(i2, cells, k) == decorate_upto(i1, cells, k),
    decreases k,
{
    if k > 0 {
        lemma_decorate_deterministic(i1, i2, cells, k - 1);
    }
}

} // verus!
