//! Incremental lighting after a single-block edit.
//!
//! Placing a transparent block re-derives its block light from the
//! brightest neighbor and pushes any increase outward with a worklist
//! flood; the sunlight column underneath is reopened top-down. Placing an
//! opaque block zeroes the cell, pulls stale block light back in with a
//! decrease flood, and shadows the sunlight column underneath. Every step
//! keeps the light bounds and touches no block identifier and no status,
//! which `same_shape` captures.
//!
//! The floods run on an explicit worklist under a generous step budget,
//! so their termination is structural; the budget is far above what a
//! 15-level light can ever enqueue.

use vstd::prelude::*;

use crate::blocks::{id_emission, id_transparent, Block, BlockId};
use crate::chunk::{Cell, LightLevel};
use crate::coords::{chunk_of, to_local_chunk_coords, BlockCoords, WORLD_HEIGHT};
use crate::neighborhood::{imax, spec_propagated};
use crate::world::{blocks_match, invalidated, opaque_cells_same, same_aux, same_shape, World};

verus! {

/// Upper bound on worklist steps one flood fill may take.
pub const MAX_FLOOD_STEPS: usize = 4194304;

/// One pending worklist entry: a position and the light level it was
/// given or used to hold.
pub struct LightNode {
    pub x: i32,
    pub y: i32,
    pub z: i32,
    pub level: LightLevel,
}

/// The light channel visible at a global position for re-derivation:
/// full sunlight above the world ceiling, the cell's channel for a known
/// transparent cell, 0 otherwise.
pub open spec fn spec_light_at(w: World, gx: int, gy: int, gz: int, sun: bool) -> int {
    if gy >= 256 {
        if sun {
            15
        } else {
            0
        }
    } else {
        match w.spec_cell_at(gx, gy, gz) {
            Option::Some(c) => if id_transparent(c.block_id) {
                if sun {
                    c.sun_light as int
                } else {
                    c.block_light as int
                }
            } else {
                0
            },
            Option::None => 0,
        }
    }
}

/// One less than the brightest of the six neighbors, clamped at zero:
/// the part of a re-derived value that the neighbors contribute.
pub open spec fn spec_nb_derived(w: World, gx: int, gy: int, gz: int, sun: bool) -> int {
    imax(
        imax(
            spec_propagated(spec_light_at(w, gx, gy, gz - 1, sun)),
            spec_propagated(spec_light_at(w, gx, gy, gz + 1, sun)),
        ),
        imax(
            imax(
                spec_propagated(spec_light_at(w, gx, gy - 1, gz, sun)),
                spec_propagated(spec_light_at(w, gx, gy + 1, gz, sun)),
            ),
            imax(
                spec_propagated(spec_light_at(w, gx - 1, gy, gz, sun)),
                spec_propagated(spec_light_at(w, gx + 1, gy, gz, sun)),
            ),
        ),
    )
}

/// The value a cell re-derives after an edit: its own emission (for block
/// light), or one less than its brightest neighbor, whichever is larger.
pub open spec fn spec_derived(w: World, gx: int, gy: int, gz: int, sun: bool) -> int {
    let own: int = if sun {
        0
    } else {
        match w.spec_cell_at(gx, gy, gz) {
            Option::Some(c) => id_emission(c.block_id) as int,
            Option::None => 0,
        }
    };
    imax(own, spec_nb_derived(w, gx, gy, gz, sun))
}

/// The value of one channel of a cell.
pub open spec fn channel_of(c: Cell, sun: bool) -> int {
    if sun {
        c.sun_light as int
    } else {
        c.block_light as int
    }
}

/// Only the named channel may have changed, cell for cell: the other
/// channel of every cell is exactly as it was.
pub open spec fn other_channel_same(w1: World, w2: World, sun: bool) -> bool {
    forall|gx: int, gy: int, gz: int|
        match (w1.spec_cell_at(gx, gy, gz), #[trigger] w2.spec_cell_at(gx, gy, gz)) {
            (Option::Some(a), Option::Some(b)) => channel_of(b, !sun) == channel_of(a, !sun),
            (Option::None, Option::None) => true,
            _ => false,
        }
}

/// The named channel never went down, in any cell.
pub open spec fn channel_monotone(w1: World, w2: World, sun: bool) -> bool {
    forall|gx: int, gy: int, gz: int|
        match (w1.spec_cell_at(gx, gy, gz), #[trigger] w2.spec_cell_at(gx, gy, gz)) {
            (Option::Some(a), Option::Some(b)) => channel_of(b, sun) >= channel_of(a, sun),
            (Option::None, Option::None) => true,
            _ => false,
        }
}

/// The named channel never went up, in any cell.
pub open spec fn channel_antitone(w1: World, w2: World, sun: bool) -> bool {
    forall|gx: int, gy: int, gz: int|
        match (w1.spec_cell_at(gx, gy, gz), #[trigger] w2.spec_cell_at(gx, gy, gz)) {
            (Option::Some(a), Option::Some(b)) => channel_of(b, sun) <= channel_of(a, sun),
            (Option::None, Option::None) => true,
            _ => false,
        }
}

/// Wherever the named channel changed, it ended at or below the cap.
pub open spec fn channel_capped(w1: World, w2: World, sun: bool, cap: int) -> bool {
    forall|gx: int, gy: int, gz: int|
        match (w1.spec_cell_at(gx, gy, gz), #[trigger] w2.spec_cell_at(gx, gy, gz)) {
            (Option::Some(a), Option::Some(b)) => channel_of(b, sun) <= imax(
                channel_of(a, sun),
                cap,
            ),
            (Option::None, Option::None) => true,
            _ => false,
        }
}

/// A `set_cell` that raises the named channel of a transparent cell to
/// at most the cap, keeping the other channel, preserves the three
/// channel clauses.
proof fn lemma_channel_step(
    w0: World,
    w1: World,
    w2: World,
    cx: int,
    cy: int,
    cz: int,
    cell: Cell,
    sun: bool,
    cap: int,
)
    requires
        other_channel_same(w0, w1, sun),
        channel_monotone(w0, w1, sun),
        channel_capped(w0, w1, sun, cap),
        w1.spec_cell_at(cx, cy, cz) is Some,
        channel_of(cell, !sun) == channel_of(w1.spec_cell_at(cx, cy, cz).unwrap(), !sun),
        channel_of(cell, sun) >= channel_of(w1.spec_cell_at(cx, cy, cz).unwrap(), sun),
        channel_of(cell, sun) <= cap,
        w2.spec_cell_at(cx, cy, cz) == Some(cell),
        forall|gx: int, gy: int, gz: int|
            (gx != cx || gy != cy || gz != cz) ==> #[trigger] w2.spec_cell_at(gx, gy, gz)
                == w1.spec_cell_at(gx, gy, gz),
    ensures
        other_channel_same(w0, w2, sun),
        channel_monotone(w0, w2, sun),
        channel_capped(w0, w2, sun, cap),
{
    assert forall|gx: int, gy: int, gz: int|
        match (w0.spec_cell_at(gx, gy, gz), #[trigger] w2.spec_cell_at(gx, gy, gz)) {
            (Option::Some(x), Option::Some(y)) => channel_of(y, !sun) == channel_of(x, !sun)
                && channel_of(y, sun) >= channel_of(x, sun) && channel_of(y, sun) <= imax(
                channel_of(x, sun),
                cap,
            ),
            (Option::None, Option::None) => true,
            _ => false,
        } by {
        assert(match (w0.spec_cell_at(gx, gy, gz), w1.spec_cell_at(gx, gy, gz)) {
            (Option::Some(x), Option::Some(y)) => channel_of(y, !sun) == channel_of(x, !sun)
                && channel_of(y, sun) >= channel_of(x, sun) && channel_of(y, sun) <= imax(
                channel_of(x, sun),
                cap,
            ),
            (Option::None, Option::None) => true,
            _ => false,
        });
    }
}

/// A `set_cell` that keeps the named channel's value and the other
/// channel preserves `other_channel_same`; used where a write replaces
/// one channel with a freshly derived value.
proof fn lemma_other_step(
    w0: World,
    w1: World,
    w2: World,
    cx: int,
    cy: int,
    cz: int,
    cell: Cell,
    sun: bool,
)
    requires
        other_channel_same(w0, w1, sun),
        w1.spec_cell_at(cx, cy, cz) is Some,
        channel_of(cell, !sun) == channel_of(w1.spec_cell_at(cx, cy, cz).unwrap(), !sun),
        w2.spec_cell_at(cx, cy, cz) == Some(cell),
        forall|gx: int, gy: int, gz: int|
            (gx != cx || gy != cy || gz != cz) ==> #[trigger] w2.spec_cell_at(gx, gy, gz)
                == w1.spec_cell_at(gx, gy, gz),
    ensures
        other_channel_same(w0, w2, sun),
{
    assert forall|gx: int, gy: int, gz: int|
        match (w0.spec_cell_at(gx, gy, gz), #[trigger] w2.spec_cell_at(gx, gy, gz)) {
            (Option::Some(x), Option::Some(y)) => channel_of(y, !sun) == channel_of(x, !sun),
            (Option::None, Option::None) => true,
            _ => false,
        } by {
        assert(match (w0.spec_cell_at(gx, gy, gz), w1.spec_cell_at(gx, gy, gz)) {
            (Option::Some(x), Option::Some(y)) => channel_of(y, !sun) == channel_of(x, !sun),
            (Option::None, Option::None) => true,
            _ => false,
        });
    }
}

/// A `set_cell` that keeps the block identifier preserves the shape,
/// whatever the block.
proof fn lemma_shape_step_any(
    w0: World,
    w1: World,
    w2: World,
    cx: int,
    cy: int,
    cz: int,
    cell: Cell,
)
    requires
        same_shape(w0, w1),
        w2.slots@.len() == w1.slots@.len(),
        forall|x: int, z: int| #[trigger] w2.has_chunk(x, z) == w1.has_chunk(x, z),
        forall|x: int, z: int|
            w1.has_chunk(x, z) ==> #[trigger] w2.chunk_at(x, z).status == w1.chunk_at(x, z).status,
        w1.spec_cell_at(cx, cy, cz) is Some,
        cell.block_id == w1.spec_cell_at(cx, cy, cz).unwrap().block_id,
        w2.spec_cell_at(cx, cy, cz) == Some(cell),
        forall|gx: int, gy: int, gz: int|
            (gx != cx || gy != cy || gz != cz) ==> #[trigger] w2.spec_cell_at(gx, gy, gz)
                == w1.spec_cell_at(gx, gy, gz),
    ensures
        same_shape(w0, w2),
{
    assert forall|gx: int, gy: int, gz: int|
        blocks_match(w0.spec_cell_at(gx, gy, gz), #[trigger] w2.spec_cell_at(gx, gy, gz)) by {
        assert(blocks_match(w0.spec_cell_at(gx, gy, gz), w1.spec_cell_at(gx, gy, gz)));
    }
}

/// `opaque_cells_same` is transitive.
pub proof fn lemma_opaque_trans(a: World, b: World, c: World)
    requires
        opaque_cells_same(a, b),
        opaque_cells_same(b, c),
    ensures
        opaque_cells_same(a, c),
{
    assert forall|gx: int, gy: int, gz: int|
        match (a.spec_cell_at(gx, gy, gz), #[trigger] c.spec_cell_at(gx, gy, gz)) {
            (Option::Some(x), Option::Some(y)) => id_transparent(x.block_id) || y == x,
            _ => true,
        } by {
        assert(match (a.spec_cell_at(gx, gy, gz), b.spec_cell_at(gx, gy, gz)) {
            (Option::Some(x), Option::Some(y)) => id_transparent(x.block_id) || y == x,
            _ => true,
        });
        assert(match (b.spec_cell_at(gx, gy, gz), c.spec_cell_at(gx, gy, gz)) {
            (Option::Some(x), Option::Some(y)) => id_transparent(x.block_id) || y == x,
            _ => true,
        });
    }
}

/// `same_shape` is transitive.
pub proof fn lemma_shape_trans(a: World, b: World, c: World)
    requires
        same_shape(a, b),
        same_shape(b, c),
    ensures
        same_shape(a, c),
{
    assert forall|gx: int, gy: int, gz: int|
        blocks_match(a.spec_cell_at(gx, gy, gz), #[trigger] c.spec_cell_at(gx, gy, gz)) by {
        assert(blocks_match(a.spec_cell_at(gx, gy, gz), b.spec_cell_at(gx, gy, gz)));
        assert(blocks_match(b.spec_cell_at(gx, gy, gz), c.spec_cell_at(gx, gy, gz)));
    }
}

/// The light channel visible at a position; see `spec_light_at`.
pub fn light_at(world: &World, gx: i32, gy: i32, gz: i32, sun: bool) -> (r: LightLevel)
    requires
        world.wf(),
    ensures
        r as int == spec_light_at(*world, gx as int, gy as int, gz as int, sun),
        r <= 15,
{
    if gy >= WORLD_HEIGHT {
        return if sun {
            15
        } else {
            0
        };
    }
    match world.get_cell(BlockCoords { x: gx, y: gy, z: gz }) {
        Some(c) => {
            proof {
                world.lemma_cell_bounded(gx as int, gy as int, gz as int);
            }
            if Block::by_id(c.block_id).is_transparent() {
                if sun {
                    c.sun_light
                } else {
                    c.block_light
                }
            } else {
                0
            }
        },
        None => 0,
    }
}

/// Chunk-edit coordinates stay off the extreme i32 values, so that a
/// one-block step in any direction cannot wrap around.
pub open spec fn step_safe(gx: int, gz: int) -> bool {
    -0x7fffffff <= gx <= 0x7ffffffe && -0x7fffffff <= gz <= 0x7ffffffe
}

/// Re-derives the light a cell should hold from its six neighbors and
/// its own emission; see `spec_derived`.
pub fn derive(world: &World, gx: i32, gy: i32, gz: i32, sun: bool) -> (r: LightLevel)
    requires
        world.wf(),
        step_safe(gx as int, gz as int),
        0 <= gy < 256,
    ensures
        r as int == spec_derived(*world, gx as int, gy as int, gz as int, sun),
        r <= 15,
{
    let own: u8 = if sun {
        0
    } else {
        match world.get_cell(BlockCoords { x: gx, y: gy, z: gz }) {
            Some(c) => Block::by_id(c.block_id).light_level(),
            None => 0,
        }
    };
    let a = sub_one(light_at(world, gx, gy, gz - 1, sun));
    let b = sub_one(light_at(world, gx, gy, gz + 1, sun));
    let c = sub_one(light_at(world, gx, gy - 1, gz, sun));
    let d = sub_one(light_at(world, gx, gy + 1, gz, sun));
    let e = sub_one(light_at(world, gx - 1, gy, gz, sun));
    let f = sub_one(light_at(world, gx + 1, gy, gz, sun));
    let ab = max8(a, b);
    let cd = max8(c, d);
    let ef = max8(e, f);
    max8(own, max8(ab, max8(cd, ef)))
}

/// One step of light decay, clamped at zero.
fn sub_one(l: LightLevel) -> (r: LightLevel)
    ensures
        r as int == spec_propagated(l as int),
{
    if l > 0 {
        l - 1
    } else {
        0
    }
}

/// The larger of two light levels.
fn max8(a: LightLevel, b: LightLevel) -> (r: LightLevel)
    ensures
        r as int == imax(a as int, b as int),
{
    if a >= b {
        a
    } else {
        b
    }
}

/// Raises one neighbor cell's channel to `target` if it is a known
/// transparent cell below that value, and queues it for further
/// propagation.
fn raise_neighbor(
    world: &mut World,
    orig: Ghost<World>,
    cap: Ghost<int>,
    nx: i32,
    ny: i32,
    nz: i32,
    target: LightLevel,
    sun: bool,
    stack: &mut Vec<LightNode>,
)
    requires
        old(world).wf(),
        same_shape(orig@, *old(world)),
        opaque_cells_same(orig@, *old(world)),
        other_channel_same(orig@, *old(world), sun),
        channel_monotone(orig@, *old(world), sun),
        channel_capped(orig@, *old(world), sun, cap@),
        target <= 15,
        target as int <= cap@,
    ensures
        final(world).wf(),
        same_shape(orig@, *final(world)),
        opaque_cells_same(orig@, *final(world)),
        other_channel_same(orig@, *final(world), sun),
        channel_monotone(orig@, *final(world), sun),
        channel_capped(orig@, *final(world), sun, cap@),
        same_aux(*old(world), *final(world)),
        old(stack)@.len() <= final(stack)@.len() <= old(stack)@.len() + 1,
        forall|i: int| 0 <= i < old(stack)@.len() ==> final(stack)@[i] == old(stack)@[i],
        forall|i: int|
            old(stack)@.len() <= i < final(stack)@.len() ==> final(stack)@[i].level == target,
{
    let coords = BlockCoords { x: nx, y: ny, z: nz };
    match world.get_cell(coords) {
        Some(c) => {
            if Block::by_id(c.block_id).is_transparent() {
                let cur = if sun {
                    c.sun_light
                } else {
                    c.block_light
                };
                if cur < target {
                    proof {
                        world.lemma_cell_bounded(nx as int, ny as int, nz as int);
                    }
                    let nc = if sun {
                        Cell { block_id: c.block_id, sun_light: target, block_light: c.block_light }
                    } else {
                        Cell { block_id: c.block_id, sun_light: c.sun_light, block_light: target }
                    };
                    let ghost pre = *world;
                    world.set_cell(coords, nc);
                    proof {
                        lemma_shape_step(orig@, pre, *world, nx as int, ny as int, nz as int, nc);
                        lemma_channel_step(
                            orig@,
                            pre,
                            *world,
                            nx as int,
                            ny as int,
                            nz as int,
                            nc,
                            sun,
                            cap@,
                        );
                    }
                    stack.push(LightNode { x: nx, y: ny, z: nz, level: target });
                }
            }
        },
        None => {},
    }
}

/// A `set_cell` that keeps the block identifier of a transparent cell
/// preserves the shape and leaves every opaque cell alone.
proof fn lemma_shape_step(w0: World, w1: World, w2: World, cx: int, cy: int, cz: int, cell: Cell)
    requires
        same_shape(w0, w1),
        opaque_cells_same(w0, w1),
        id_transparent(cell.block_id),
        w2.slots@.len() == w1.slots@.len(),
        forall|x: int, z: int| #[trigger] w2.has_chunk(x, z) == w1.has_chunk(x, z),
        forall|x: int, z: int|
            w1.has_chunk(x, z) ==> #[trigger] w2.chunk_at(x, z).status == w1.chunk_at(x, z).status,
        w1.spec_cell_at(cx, cy, cz) is Some,
        cell.block_id == w1.spec_cell_at(cx, cy, cz).unwrap().block_id,
        w2.spec_cell_at(cx, cy, cz) == Some(cell),
        forall|gx: int, gy: int, gz: int|
            (gx != cx || gy != cy || gz != cz) ==> #[trigger] w2.spec_cell_at(gx, gy, gz)
                == w1.spec_cell_at(gx, gy, gz),
    ensures
        same_shape(w0, w2),
        opaque_cells_same(w0, w2),
{
    assert forall|gx: int, gy: int, gz: int|
        blocks_match(w0.spec_cell_at(gx, gy, gz), #[trigger] w2.spec_cell_at(gx, gy, gz)) by {
        assert(blocks_match(w0.spec_cell_at(gx, gy, gz), w1.spec_cell_at(gx, gy, gz)));
    }
    assert forall|gx: int, gy: int, gz: int|
        match (w0.spec_cell_at(gx, gy, gz), #[trigger] w2.spec_cell_at(gx, gy, gz)) {
            (Option::Some(a), Option::Some(b)) => id_transparent(a.block_id) || b == a,
            _ => true,
        } by {
        assert(blocks_match(w0.spec_cell_at(gx, gy, gz), w1.spec_cell_at(gx, gy, gz)));
        if gx == cx && gy == cy && gz == cz {
        } else {
            assert(w2.spec_cell_at(gx, gy, gz) == w1.spec_cell_at(gx, gy, gz));
        }
    }
}

/// Every per-cell relation holds of a world against itself.
proof fn lemma_world_refl(w: World, sun: bool, cap: int)
    requires
        cap >= 0,
    ensures
        same_shape(w, w),
        opaque_cells_same(w, w),
        other_channel_same(w, w, sun),
        channel_monotone(w, w, sun),
        channel_capped(w, w, sun, cap),
{
    assert forall|gx: int, gy: int, gz: int|
        match (w.spec_cell_at(gx, gy, gz), #[trigger] w.spec_cell_at(gx, gy, gz)) {
            (Option::Some(a), Option::Some(b)) => channel_of(b, !sun) == channel_of(a, !sun)
                && channel_of(b, sun) >= channel_of(a, sun) && channel_of(b, sun) <= imax(
                channel_of(a, sun),
                cap,
            ) && (id_transparent(a.block_id) || b == a),
            (Option::None, Option::None) => true,
            _ => false,
        } by {}
    assert forall|gx: int, gy: int, gz: int|
        blocks_match(w.spec_cell_at(gx, gy, gz), #[trigger] w.spec_cell_at(gx, gy, gz)) by {}
}

/// `other_channel_same` is transitive.
proof fn lemma_other_trans(a: World, b: World, c: World, sun: bool)
    requires
        other_channel_same(a, b, sun),
        other_channel_same(b, c, sun),
    ensures
        other_channel_same(a, c, sun),
{
    assert forall|gx: int, gy: int, gz: int|
        match (a.spec_cell_at(gx, gy, gz), #[trigger] c.spec_cell_at(gx, gy, gz)) {
            (Option::Some(x), Option::Some(y)) => channel_of(y, !sun) == channel_of(x, !sun),
            (Option::None, Option::None) => true,
            _ => false,
        } by {
        assert(match (a.spec_cell_at(gx, gy, gz), b.spec_cell_at(gx, gy, gz)) {
            (Option::Some(x), Option::Some(y)) => channel_of(y, !sun) == channel_of(x, !sun),
            (Option::None, Option::None) => true,
            _ => false,
        });
        assert(match (b.spec_cell_at(gx, gy, gz), c.spec_cell_at(gx, gy, gz)) {
            (Option::Some(x), Option::Some(y)) => channel_of(y, !sun) == channel_of(x, !sun),
            (Option::None, Option::None) => true,
            _ => false,
        });
    }
}

/// A `set_cell` that lowers the named channel of a cell, keeping the
/// other channel, preserves the downward clauses.
proof fn lemma_channel_down_step(
    w0: World,
    w1: World,
    w2: World,
    cx: int,
    cy: int,
    cz: int,
    cell: Cell,
    sun: bool,
)
    requires
        other_channel_same(w0, w1, sun),
        channel_antitone(w0, w1, sun),
        w1.spec_cell_at(cx, cy, cz) is Some,
        channel_of(cell, !sun) == channel_of(w1.spec_cell_at(cx, cy, cz).unwrap(), !sun),
        channel_of(cell, sun) <= channel_of(w1.spec_cell_at(cx, cy, cz).unwrap(), sun),
        w2.spec_cell_at(cx, cy, cz) == Some(cell),
        forall|gx: int, gy: int, gz: int|
            (gx != cx || gy != cy || gz != cz) ==> #[trigger] w2.spec_cell_at(gx, gy, gz)
                == w1.spec_cell_at(gx, gy, gz),
    ensures
        other_channel_same(w0, w2, sun),
        channel_antitone(w0, w2, sun),
{
    assert forall|gx: int, gy: int, gz: int|
        match (w0.spec_cell_at(gx, gy, gz), #[trigger] w2.spec_cell_at(gx, gy, gz)) {
            (Option::Some(x), Option::Some(y)) => channel_of(y, !sun) == channel_of(x, !sun)
                && channel_of(y, sun) <= channel_of(x, sun),
            (Option::None, Option::None) => true,
            _ => false,
        } by {
        assert(match (w0.spec_cell_at(gx, gy, gz), w1.spec_cell_at(gx, gy, gz)) {
            (Option::Some(x), Option::Some(y)) => channel_of(y, !sun) == channel_of(x, !sun)
                && channel_of(y, sun) <= channel_of(x, sun),
            (Option::None, Option::None) => true,
            _ => false,
        });
    }
}

/// Two worlds with the same blocks and the same sunlight in every cell
/// show each position the same sunlight for re-derivation.
proof fn lemma_sun_view_same(w1: World, w2: World, gx: int, gy: int, gz: int)
    requires
        same_shape(w1, w2),
        other_channel_same(w1, w2, false),
    ensures
        spec_light_at(w2, gx, gy, gz, true) == spec_light_at(w1, gx, gy, gz, true),
{
    assert(blocks_match(w1.spec_cell_at(gx, gy, gz), w2.spec_cell_at(gx, gy, gz)));
    assert(match (w1.spec_cell_at(gx, gy, gz), w2.spec_cell_at(gx, gy, gz)) {
        (Option::Some(a), Option::Some(b)) => channel_of(b, true) == channel_of(a, true),
        (Option::None, Option::None) => true,
        _ => false,
    });
}

/// Greedy outward push of a light increase: every queued cell hands
/// `level - 1` on to any dimmer transparent neighbor, until the worklist
/// is empty or the step budget runs out. Bounds, blocks and statuses are
/// all kept.
fn increase_flood(world: &mut World, start: Vec<LightNode>, sun: bool, cap: Ghost<int>)
    requires
        old(world).wf(),
        forall|i: int| 0 <= i < start@.len() ==> (#[trigger] start@[i]).level as int <= cap@,
    ensures
        final(world).wf(),
        same_shape(*old(world), *final(world)),
        opaque_cells_same(*old(world), *final(world)),
        other_channel_same(*old(world), *final(world), sun),
        channel_monotone(*old(world), *final(world), sun),
        channel_capped(*old(world), *final(world), sun, cap@ - 1),
        same_aux(*old(world), *final(world)),
{
    let mut stack = start;
    let mut fuel: usize = MAX_FLOOD_STEPS;
    while fuel > 0 && stack.len() > 0
        invariant
            world.wf(),
            same_shape(*old(world), *world),
            opaque_cells_same(*old(world), *world),
            other_channel_same(*old(world), *world, sun),
            channel_monotone(*old(world), *world, sun),
            channel_capped(*old(world), *world, sun, cap@ - 1),
            same_aux(*old(world), *world),
            forall|i: int| 0 <= i < stack@.len() ==> (#[trigger] stack@[i]).level as int <= cap@,
        decreases fuel,
    {
        fuel = fuel - 1;
        let node = stack.pop().unwrap();
        let safe = node.x > i32::MIN + 1 && node.x < i32::MAX - 1 && node.z > i32::MIN + 1
            && node.z < i32::MAX - 1 && node.y > -300 && node.y < 300;
        if safe && node.level >= 2 && node.level <= 15 {
            let t = node.level - 1;
            let ghost orig = *old(world);
            raise_neighbor(world, Ghost(orig), Ghost(cap@ - 1), node.x, node.y, node.z - 1, t, sun, &mut stack);
            raise_neighbor(world, Ghost(orig), Ghost(cap@ - 1), node.x, node.y, node.z + 1, t, sun, &mut stack);
            raise_neighbor(world, Ghost(orig), Ghost(cap@ - 1), node.x, node.y - 1, node.z, t, sun, &mut stack);
            raise_neighbor(world, Ghost(orig), Ghost(cap@ - 1), node.x, node.y + 1, node.z, t, sun, &mut stack);
            raise_neighbor(world, Ghost(orig), Ghost(cap@ - 1), node.x - 1, node.y, node.z, t, sun, &mut stack);
            raise_neighbor(world, Ghost(orig), Ghost(cap@ - 1), node.x + 1, node.y, node.z, t, sun, &mut stack);
        }
    }
}

/// Clears one stale neighbor: a transparent neighbor dimmer than the
/// popped cell's old value is re-derived from its remaining neighbors,
/// and queued when it lost light.
fn lower_neighbor(
    world: &mut World,
    orig: Ghost<World>,
    nx: i32,
    ny: i32,
    nz: i32,
    old_level: LightLevel,
    sun: bool,
    stack: &mut Vec<LightNode>,
)
    requires
        old(world).wf(),
        same_shape(orig@, *old(world)),
        opaque_cells_same(orig@, *old(world)),
        other_channel_same(orig@, *old(world), sun),
        nx > i32::MIN && nx < i32::MAX && nz > i32::MIN && nz < i32::MAX,
    ensures
        final(world).wf(),
        same_shape(orig@, *final(world)),
        opaque_cells_same(orig@, *final(world)),
        other_channel_same(orig@, *final(world), sun),
        same_aux(*old(world), *final(world)),
{
    let coords = BlockCoords { x: nx, y: ny, z: nz };
    match world.get_cell(coords) {
        Some(c) => {
            if ny >= 0 && ny < WORLD_HEIGHT && Block::by_id(c.block_id).is_transparent() {
                let cur = if sun {
                    c.sun_light
                } else {
                    c.block_light
                };
                if cur > 0 && cur < old_level {
                    let d = derive(world, nx, ny, nz, sun);
                    if d != cur {
                        proof {
                            world.lemma_cell_bounded(nx as int, ny as int, nz as int);
                        }
                        let nc = if sun {
                            Cell { block_id: c.block_id, sun_light: d, block_light: c.block_light }
                        } else {
                            Cell { block_id: c.block_id, sun_light: c.sun_light, block_light: d }
                        };
                        let ghost pre = *world;
                        world.set_cell(coords, nc);
                        proof {
                            lemma_shape_step(
                                orig@,
                                pre,
                                *world,
                                nx as int,
                                ny as int,
                                nz as int,
                                nc,
                            );
                            lemma_other_step(
                                orig@,
                                pre,
                                *world,
                                nx as int,
                                ny as int,
                                nz as int,
                                nc,
                                sun,
                            );
                        }
                        if d < cur {
                            stack.push(LightNode { x: nx, y: ny, z: nz, level: cur });
                        }
                    }
                }
            }
        },
        None => {},
    }
}

/// Lazy pull-back of a light decrease: every queued cell's old value
/// marks which neighbors are stale; each stale neighbor is re-derived
/// from what its own neighbors still hold, cascading while values drop.
fn decrease_flood(world: &mut World, start: Vec<LightNode>, sun: bool)
    requires
        old(world).wf(),
    ensures
        final(world).wf(),
        same_shape(*old(world), *final(world)),
        opaque_cells_same(*old(world), *final(world)),
        other_channel_same(*old(world), *final(world), sun),
        same_aux(*old(world), *final(world)),
{
    let mut stack = start;
    let mut fuel: usize = MAX_FLOOD_STEPS;
    while fuel > 0 && stack.len() > 0
        invariant
            world.wf(),
            same_shape(*old(world), *world),
            opaque_cells_same(*old(world), *world),
            other_channel_same(*old(world), *world, sun),
            same_aux(*old(world), *world),
        decreases fuel,
    {
        fuel = fuel - 1;
        let node = stack.pop().unwrap();
        let safe = node.x > i32::MIN + 1 && node.x < i32::MAX - 1 && node.z > i32::MIN + 1
            && node.z < i32::MAX - 1 && node.y > -300 && node.y < 300;
        if safe && node.level >= 1 {
            let ghost orig = *old(world);
            let v = node.level;
            lower_neighbor(world, Ghost(orig), node.x, node.y, node.z - 1, v, sun, &mut stack);
            lower_neighbor(world, Ghost(orig), node.x, node.y, node.z + 1, v, sun, &mut stack);
            lower_neighbor(world, Ghost(orig), node.x, node.y - 1, node.z, v, sun, &mut stack);
            lower_neighbor(world, Ghost(orig), node.x, node.y + 1, node.z, v, sun, &mut stack);
            lower_neighbor(world, Ghost(orig), node.x - 1, node.y, node.z, v, sun, &mut stack);
            lower_neighbor(world, Ghost(orig), node.x + 1, node.y, node.z, v, sun, &mut stack);
        }
    }
}

/// Reopens the sunlight column at and below an edited transparent cell:
/// walks down to the first opaque cell, giving each cell full sunlight
/// under a clear shaft and a neighbor-derived value otherwise, then
/// spreads any gained light sideways.
/// The sunlight the reopened column's top cell is given: full under a
/// clear shaft, its neighbor-derived value otherwise.
pub open spec fn reopened_sun(w: World, gx: int, gy: int, gz: int) -> int {
    if spec_light_at(w, gx, gy + 1, gz, true) == 15 {
        15
    } else {
        spec_derived(w, gx, gy, gz, true)
    }
}

fn sun_column_open(world: &mut World, coords: BlockCoords)
    requires
        old(world).wf(),
        step_safe(coords.x as int, coords.z as int),
        coords.y < 256,
    ensures
        final(world).wf(),
        same_shape(*old(world), *final(world)),
        opaque_cells_same(*old(world), *final(world)),
        other_channel_same(*old(world), *final(world), true),
        same_aux(*old(world), *final(world)),
        0 <= coords.y ==> match (
            old(world).spec_cell_at(coords.x as int, coords.y as int, coords.z as int),
            final(world).spec_cell_at(coords.x as int, coords.y as int, coords.z as int),
        ) {
            (Option::Some(c0), Option::Some(b)) => id_transparent(c0.block_id) ==> {
                let v = reopened_sun(*old(world), coords.x as int, coords.y as int, coords.z as int);
                &&& b.sun_light as int >= v
                &&& (v == 15 ==> b.sun_light == 15)
                &&& b.block_light == c0.block_light
            },
            _ => true,
        },
{
    let ghost gx = coords.x as int;
    let ghost gy = coords.y as int;
    let ghost gz = coords.z as int;
    let ghost gv = reopened_sun(*old(world), gx, gy, gz);
    let mut nodes: Vec<LightNode> = Vec::new();
    let mut y = coords.y;
    while y >= 0
        invariant
            world.wf(),
            same_shape(*old(world), *world),
            opaque_cells_same(*old(world), *world),
            other_channel_same(*old(world), *world, true),
            same_aux(*old(world), *world),
            y <= coords.y < 256,
            step_safe(coords.x as int, coords.z as int),
            gx == coords.x as int && gy == coords.y as int && gz == coords.z as int,
            gv == reopened_sun(*old(world), gx, gy, gz),
            y == coords.y ==> *world == *old(world),
            forall|i: int| 0 <= i < nodes@.len() ==> (#[trigger] nodes@[i]).level as int <= 15,
            y < coords.y ==> match (
                old(world).spec_cell_at(gx, gy, gz),
                world.spec_cell_at(gx, gy, gz),
            ) {
                (Option::Some(c0), Option::Some(b)) => id_transparent(c0.block_id) ==> b
                    == (Cell {
                    block_id: c0.block_id,
                    sun_light: gv as u8,
                    block_light: c0.block_light,
                }),
                _ => true,
            },
        decreases y + 1,
    {
        let cpos = BlockCoords { x: coords.x, y, z: coords.z };
        let stop = match world.get_cell(cpos) {
            Some(c) => {
                if Block::by_id(c.block_id).is_transparent() {
                    let above = light_at(world, coords.x, y + 1, coords.z, true);
                    let v = if above == 15 {
                        15
                    } else {
                        derive(world, coords.x, y, coords.z, true)
                    };
                    proof {
                        world.lemma_cell_bounded(coords.x as int, y as int, coords.z as int);
                    }
                    let nc = Cell {
                        block_id: c.block_id,
                        sun_light: v,
                        block_light: c.block_light,
                    };
                    let ghost pre = *world;
                    world.set_cell(cpos, nc);
                    proof {
                        lemma_shape_step(
                            *old(world),
                            pre,
                            *world,
                            coords.x as int,
                            y as int,
                            coords.z as int,
                            nc,
                        );
                        lemma_other_step(
                            *old(world),
                            pre,
                            *world,
                            coords.x as int,
                            y as int,
                            coords.z as int,
                            nc,
                            true,
                        );
                        if y == coords.y {
                            assert(v as int == gv);
                        }
                    }
                    nodes.push(LightNode { x: coords.x, y, z: coords.z, level: v });
                    false
                } else {
                    true
                }
            },
            None => true,
        };
        if stop {
            y = -1;
        } else {
            y = y - 1;
        }
    }
    let ghost mid = *world;
    increase_flood(world, nodes, true, Ghost(15));
    proof {
        lemma_shape_trans(*old(world), mid, *world);
        lemma_opaque_trans(*old(world), mid, *world);
        lemma_other_trans(*old(world), mid, *world, true);
        if 0 <= coords.y {
            assert(match (mid.spec_cell_at(gx, gy, gz), world.spec_cell_at(gx, gy, gz)) {
                (Option::Some(a), Option::Some(b)) => channel_of(b, true) >= channel_of(a, true)
                    && channel_of(b, true) <= imax(channel_of(a, true), 14) && channel_of(b, false)
                    == channel_of(a, false),
                (Option::None, Option::None) => true,
                _ => false,
            });
        }
    }
}

/// Shadows the sunlight column below a newly opaque cell: every cell
/// straight down that still held full sunlight is re-derived from its
/// neighbors; the walk stops at the first cell that was already shadowed
/// or opaque.
fn sun_column_shadow(world: &mut World, coords: BlockCoords)
    requires
        old(world).wf(),
        step_safe(coords.x as int, coords.z as int),
        0 <= coords.y < 256,
    ensures
        final(world).wf(),
        same_shape(*old(world), *final(world)),
        opaque_cells_same(*old(world), *final(world)),
        other_channel_same(*old(world), *final(world), true),
        channel_antitone(*old(world), *final(world), true),
        same_aux(*old(world), *final(world)),
        // only the column strictly below the edit is touched
        forall|gx: int, gy: int, gz: int|
            (gx != coords.x as int || gz != coords.z as int || gy >= coords.y as int)
                ==> #[trigger] final(world).spec_cell_at(gx, gy, gz) == old(world).spec_cell_at(
                gx,
                gy,
                gz,
            ),
        // the cell directly below a full-sun shaft is re-derived exactly
        match (
            old(world).spec_cell_at(coords.x as int, coords.y - 1, coords.z as int),
            final(world).spec_cell_at(coords.x as int, coords.y - 1, coords.z as int),
        ) {
            (Option::Some(b0), Option::Some(b)) => (id_transparent(b0.block_id) && b0.sun_light
                == 15) ==> b == (Cell {
                block_id: b0.block_id,
                sun_light: spec_derived(
                    *old(world),
                    coords.x as int,
                    coords.y - 1,
                    coords.z as int,
                    true,
                ) as u8,
                block_light: b0.block_light,
            }),
            _ => true,
        },
{
    let ghost gx = coords.x as int;
    let ghost gby = coords.y - 1 as int;
    let ghost gz = coords.z as int;
    let mut y = coords.y - 1;
    while y >= 0
        invariant
            world.wf(),
            same_shape(*old(world), *world),
            opaque_cells_same(*old(world), *world),
            other_channel_same(*old(world), *world, true),
            channel_antitone(*old(world), *world, true),
            same_aux(*old(world), *world),
            y <= coords.y - 1,
            y < 256,
            step_safe(coords.x as int, coords.z as int),
            gx == coords.x as int && gby == coords.y - 1 && gz == coords.z as int,
            forall|qx: int, qy: int, qz: int|
                (qx != gx || qz != gz || qy >= coords.y as int)
                    ==> #[trigger] world.spec_cell_at(qx, qy, qz) == old(world).spec_cell_at(
                    qx,
                    qy,
                    qz,
                ),
            y == coords.y - 1 ==> *world == *old(world),
            y < coords.y - 1 ==> match (
                old(world).spec_cell_at(gx, gby, gz),
                world.spec_cell_at(gx, gby, gz),
            ) {
                (Option::Some(b0), Option::Some(b)) => (id_transparent(b0.block_id)
                    && b0.sun_light == 15) ==> b == (Cell {
                    block_id: b0.block_id,
                    sun_light: spec_derived(*old(world), gx, gby, gz, true) as u8,
                    block_light: b0.block_light,
                }),
                _ => true,
            },
        decreases y + 1,
    {
        let cpos = BlockCoords { x: coords.x, y, z: coords.z };
        let stop = match world.get_cell(cpos) {
            Some(c) => {
                if Block::by_id(c.block_id).is_transparent() && c.sun_light == 15 {
                    let d = derive(world, coords.x, y, coords.z, true);
                    proof {
                        world.lemma_cell_bounded(coords.x as int, y as int, coords.z as int);
                    }
                    let nc = Cell {
                        block_id: c.block_id,
                        sun_light: d,
                        block_light: c.block_light,
                    };
                    let ghost pre = *world;
                    world.set_cell(cpos, nc);
                    proof {
                        lemma_shape_step(
                            *old(world),
                            pre,
                            *world,
                            coords.x as int,
                            y as int,
                            coords.z as int,
                            nc,
                        );
                        lemma_channel_down_step(
                            *old(world),
                            pre,
                            *world,
                            coords.x as int,
                            y as int,
                            coords.z as int,
                            nc,
                            true,
                        );
                    }
                    false
                } else {
                    true
                }
            },
            None => true,
        };
        if stop {
            y = -1;
        } else {
            y = y - 1;
        }
    }
}

/// A position away from the edited cell shows the same sunlight after
/// the edit's write and a block-light flood as before either.
proof fn lemma_sun_unchanged_at(
    w0: World,
    pre: World,
    w1: World,
    w2: World,
    cx: int,
    cy: int,
    cz: int,
    px: int,
    py: int,
    pz: int,
)
    requires
        pre == w0,
        (px != cx || py != cy || pz != cz),
        w1.spec_cell_at(px, py, pz) == pre.spec_cell_at(px, py, pz),
        same_shape(w1, w2),
        other_channel_same(w1, w2, false),
    ensures
        spec_light_at(w2, px, py, pz, true) == spec_light_at(w0, px, py, pz, true),
{
    lemma_sun_view_same(w1, w2, px, py, pz);
}

/// Re-lights the world after the block at `coords` has been replaced:
/// the transparent case re-derives and possibly floods an increase and
/// reopens the sun column; the opaque case zeroes the cell, floods the
/// block-light decrease and shadows the sun column. Light bounds hold
/// afterwards, and no block identifier or status changes.
pub fn on_block_placed(world: &mut World, coords: BlockCoords)
    requires
        old(world).wf(),
        old(world).spec_cell_at(coords.x as int, coords.y as int, coords.z as int) is Some,
        step_safe(coords.x as int, coords.z as int),
        0 <= coords.y < 256,
    ensures
        final(world).wf(),
        same_shape(*old(world), *final(world)),
        same_aux(*old(world), *final(world)),
        ({
            let c0 = old(world).spec_cell_at(
                coords.x as int,
                coords.y as int,
                coords.z as int,
            ).unwrap();
            !id_transparent(c0.block_id) ==> final(world).spec_cell_at(
                coords.x as int,
                coords.y as int,
                coords.z as int,
            ) == Some(
                Cell {
                    block_id: c0.block_id,
                    sun_light: 0,
                    block_light: id_emission(c0.block_id),
                },
            )
        }),
        // a transparent block's cell ends at its re-derived block light,
        // and at full sunlight under a clear shaft
        ({
            let cx = coords.x as int;
            let cy = coords.y as int;
            let cz = coords.z as int;
            let c0 = old(world).spec_cell_at(cx, cy, cz).unwrap();
            id_transparent(c0.block_id) ==> match final(world).spec_cell_at(cx, cy, cz) {
                Option::Some(b) => {
                    &&& b.block_light as int == spec_derived(*old(world), cx, cy, cz, false)
                    &&& b.sun_light as int >= reopened_sun(*old(world), cx, cy, cz)
                    &&& (reopened_sun(*old(world), cx, cy, cz) == 15 ==> b.sun_light == 15)
                },
                Option::None => false,
            }
        }),
        // an opaque edit touches sunlight only in its own cell and the
        // column below it
        ({
            let cx = coords.x as int;
            let cy = coords.y as int;
            let cz = coords.z as int;
            let c0 = old(world).spec_cell_at(cx, cy, cz).unwrap();
            !id_transparent(c0.block_id) ==> forall|gx: int, gy: int, gz: int|
                (gx != cx || gz != cz || gy > cy) ==> match (
                    old(world).spec_cell_at(gx, gy, gz),
                    #[trigger] final(world).spec_cell_at(gx, gy, gz),
                ) {
                    (Option::Some(a), Option::Some(b)) => b.sun_light == a.sun_light,
                    (Option::None, Option::None) => true,
                    _ => false,
                }
        }),
        // under a newly opaque block, a full-sun cell below is re-derived
        ({
            let cx = coords.x as int;
            let cy = coords.y as int;
            let cz = coords.z as int;
            let c0 = old(world).spec_cell_at(cx, cy, cz).unwrap();
            !id_transparent(c0.block_id) ==> match (
                old(world).spec_cell_at(cx, cy - 1, cz),
                final(world).spec_cell_at(cx, cy - 1, cz),
            ) {
                (Option::Some(b0), Option::Some(b)) => (id_transparent(b0.block_id)
                    && b0.sun_light == 15) ==> b.block_id == b0.block_id && b.sun_light
                    == spec_derived(*old(world), cx, cy - 1, cz, true) as u8,
                _ => true,
            }
        }),
{
    let ghost gcx = coords.x as int;
    let ghost gcy = coords.y as int;
    let ghost gcz = coords.z as int;
    let c = world.get_cell(coords).unwrap();
    let block = Block::by_id(c.block_id);
    proof {
        world.lemma_cell_bounded(coords.x as int, coords.y as int, coords.z as int);
    }
    if block.is_transparent() {
        let oldv = c.block_light;
        let d = derive(world, coords.x, coords.y, coords.z, false);
        let nc = Cell { block_id: c.block_id, sun_light: c.sun_light, block_light: d };
        let ghost pre = *world;
        world.set_cell(coords, nc);
        proof {
            assert(opaque_cells_same(*old(world), pre));
            assert(other_channel_same(*old(world), pre, false));
            lemma_shape_step(*old(world), pre, *world, gcx, gcy, gcz, nc);
            lemma_other_step(*old(world), pre, *world, gcx, gcy, gcz, nc, false);
        }
        let ghost w1 = *world;
        if d > oldv {
            let mut start: Vec<LightNode> = Vec::new();
            start.push(LightNode { x: coords.x, y: coords.y, z: coords.z, level: d });
            let ghost mid = *world;
            increase_flood(world, start, false, Ghost(d as int));
            proof {
                lemma_shape_trans(*old(world), mid, *world);
                // the flood keeps the edited cell at its derived value
                assert(match (mid.spec_cell_at(gcx, gcy, gcz), world.spec_cell_at(gcx, gcy, gcz)) {
                    (Option::Some(a), Option::Some(b)) => channel_of(b, false) >= channel_of(
                        a,
                        false,
                    ) && channel_of(b, false) <= imax(channel_of(a, false), d as int - 1)
                        && channel_of(b, true) == channel_of(a, true),
                    (Option::None, Option::None) => true,
                    _ => false,
                });
            }
        } else {
            proof {
                lemma_world_refl(w1, false, 15);
            }
        }
        let ghost w2 = *world;
        proof {
            assert(w2.spec_cell_at(gcx, gcy, gcz) == Some(nc));
            // sunlight is untouched so far, so the reopened column reads
            // the same sky and the same neighbors as at entry
            assert(other_channel_same(w1, w2, false) && same_shape(w1, w2));
            lemma_sun_unchanged_at(*old(world), pre, w1, w2, gcx, gcy, gcz, gcx, gcy, gcz - 1);
            lemma_sun_unchanged_at(*old(world), pre, w1, w2, gcx, gcy, gcz, gcx, gcy, gcz + 1);
            lemma_sun_unchanged_at(*old(world), pre, w1, w2, gcx, gcy, gcz, gcx, gcy - 1, gcz);
            lemma_sun_unchanged_at(*old(world), pre, w1, w2, gcx, gcy, gcz, gcx, gcy + 1, gcz);
            lemma_sun_unchanged_at(*old(world), pre, w1, w2, gcx, gcy, gcz, gcx - 1, gcy, gcz);
            lemma_sun_unchanged_at(*old(world), pre, w1, w2, gcx, gcy, gcz, gcx + 1, gcy, gcz);
            assert(spec_derived(w2, gcx, gcy, gcz, true) == spec_derived(
                *old(world),
                gcx,
                gcy,
                gcz,
                true,
            ));
            assert(reopened_sun(w2, gcx, gcy, gcz) == reopened_sun(*old(world), gcx, gcy, gcz));
        }
        sun_column_open(world, coords);
        proof {
            lemma_shape_trans(*old(world), w2, *world);
            // the column walk keeps block light everywhere
            assert(match (w2.spec_cell_at(gcx, gcy, gcz), world.spec_cell_at(gcx, gcy, gcz)) {
                (Option::Some(a), Option::Some(b)) => channel_of(b, false) == channel_of(a, false),
                (Option::None, Option::None) => true,
                _ => false,
            });
        }
    } else {
        let old_block = c.block_light;
        let nc = Cell {
            block_id: c.block_id,
            sun_light: 0,
            block_light: block.light_level(),
        };
        let ghost pre = *world;
        world.set_cell(coords, nc);
        let ghost cx = coords.x as int;
        let ghost cy = coords.y as int;
        let ghost cz = coords.z as int;
        proof {
            assert(id_emission(c.block_id) <= 15);
            lemma_shape_step_any(*old(world), pre, *world, cx, cy, cz, nc);
            assert(world.spec_cell_at(cx, cy, cz) == Some(nc));
        }
        let ghost w1 = *world;
        let mut start: Vec<LightNode> = Vec::new();
        start.push(LightNode { x: coords.x, y: coords.y, z: coords.z, level: old_block });
        let ghost mid = *world;
        decrease_flood(world, start, false);
        proof {
            lemma_shape_trans(*old(world), mid, *world);
            assert(match (mid.spec_cell_at(cx, cy, cz), world.spec_cell_at(cx, cy, cz)) {
                (Option::Some(a), Option::Some(b)) => id_transparent(a.block_id) || b == a,
                (Option::None, Option::None) => true,
                _ => false,
            });
            assert(world.spec_cell_at(cx, cy, cz) == Some(nc));
        }
        let ghost w2 = *world;
        proof {
            // sunlight is untouched so far at every cell except the
            // edited one, which is now opaque and contributes none
            assert(w2.spec_cell_at(cx, cy, cz) == Some(nc));
            assert(!id_transparent(nc.block_id));
            assert(spec_light_at(w2, cx, cy, cz, true) == 0);
            assert(spec_light_at(*old(world), cx, cy, cz, true) == 0);
            lemma_sun_unchanged_at(*old(world), pre, w1, w2, cx, cy, cz, cx, cy - 1, cz - 1);
            lemma_sun_unchanged_at(*old(world), pre, w1, w2, cx, cy, cz, cx, cy - 1, cz + 1);
            lemma_sun_unchanged_at(*old(world), pre, w1, w2, cx, cy, cz, cx, cy - 2, cz);
            lemma_sun_unchanged_at(*old(world), pre, w1, w2, cx, cy, cz, cx - 1, cy - 1, cz);
            lemma_sun_unchanged_at(*old(world), pre, w1, w2, cx, cy, cz, cx + 1, cy - 1, cz);
            assert(spec_derived(w2, cx, cy - 1, cz, true) == spec_derived(
                *old(world),
                cx,
                cy - 1,
                cz,
                true,
            ));
            lemma_sun_unchanged_at(*old(world), pre, w1, w2, cx, cy, cz, cx, cy - 1, cz);
        }
        sun_column_shadow(world, coords);
        proof {
            lemma_shape_trans(*old(world), w2, *world);
            assert(match (w2.spec_cell_at(cx, cy, cz), world.spec_cell_at(cx, cy, cz)) {
                (Option::Some(a), Option::Some(b)) => id_transparent(a.block_id) || b == a,
                (Option::None, Option::None) => true,
                _ => false,
            });
            assert(world.spec_cell_at(cx, cy, cz) == Some(nc));
        }
    }
}

/// Chunk coordinates within one step of (ccx, ccz) horizontally: the
/// chunk itself and its up to 8 neighbors.
pub open spec fn near_chunk(ccx: int, ccz: int, cx: int, cz: int) -> bool {
    ccx - 1 <= cx <= ccx + 1 && ccz - 1 <= cz <= ccz + 1
}

impl World {
    /// Replaces the block at global block coordinates and re-lights the
    /// world incrementally. A no-op outside the world height, in an
    /// unloaded chunk, or at the extreme ends of the i32 coordinate range
    /// (a machine guard). Otherwise exactly the addressed cell's block
    /// changes, light stays within bounds everywhere, and the edited
    /// chunk and its loaded horizontal neighbors are marked as holding
    /// stale geometry.
    pub fn set_block(&mut self, coords: BlockCoords, block_id: BlockId)
        requires
            old(self).wf(),
        ensures
            final(self).wf(),
            same_aux(*old(self), *final(self)),
            final(self).slots@.len() == old(self).slots@.len(),
            forall|x: int, z: int|
                #[trigger] final(self).has_chunk(x, z) == old(self).has_chunk(x, z),
            (!(0 <= coords.y < 256) || old(self).spec_cell_at(
                coords.x as int,
                coords.y as int,
                coords.z as int,
            ) is None || !step_safe(coords.x as int, coords.z as int)) ==> final(self).slots@ == old(
                self,
            ).slots@,
            ((0 <= coords.y < 256) && old(self).spec_cell_at(
                coords.x as int,
                coords.y as int,
                coords.z as int,
            ) is Some && step_safe(coords.x as int, coords.z as int)) ==> {
                &&& final(self).spec_cell_at(
                    coords.x as int,
                    coords.y as int,
                    coords.z as int,
                ) is Some
                &&& final(self).spec_cell_at(
                    coords.x as int,
                    coords.y as int,
                    coords.z as int,
                ).unwrap().block_id == block_id
                &&& !id_transparent(block_id) ==> final(self).spec_cell_at(
                    coords.x as int,
                    coords.y as int,
                    coords.z as int,
                ) == Some(
                    Cell { block_id, sun_light: 0, block_light: id_emission(block_id) },
                )
                &&& !id_transparent(block_id) ==> forall|gx: int, gy: int, gz: int|
                    (gx != coords.x as int || gz != coords.z as int || gy > coords.y as int)
                        ==> match (
                        old(self).spec_cell_at(gx, gy, gz),
                        #[trigger] final(self).spec_cell_at(gx, gy, gz),
                    ) {
                        (Option::Some(a), Option::Some(b)) => b.sun_light == a.sun_light,
                        (Option::None, Option::None) => true,
                        _ => false,
                    }
                &&& id_transparent(block_id) ==> match final(self).spec_cell_at(
                    coords.x as int,
                    coords.y as int,
                    coords.z as int,
                ) {
                    Option::Some(b) => {
                        &&& b.block_light as int == imax(
                            id_emission(block_id) as int,
                            spec_nb_derived(
                                *old(self),
                                coords.x as int,
                                coords.y as int,
                                coords.z as int,
                                false,
                            ),
                        )
                        &&& b.sun_light as int >= (if spec_light_at(
                            *old(self),
                            coords.x as int,
                            coords.y + 1,
                            coords.z as int,
                            true,
                        ) == 15 {
                            15int
                        } else {
                            spec_nb_derived(
                                *old(self),
                                coords.x as int,
                                coords.y as int,
                                coords.z as int,
                                true,
                            )
                        })
                        &&& (spec_light_at(
                            *old(self),
                            coords.x as int,
                            coords.y + 1,
                            coords.z as int,
                            true,
                        ) == 15 ==> b.sun_light == 15)
                    },
                    Option::None => false,
                }
                &&& forall|gx: int, gy: int, gz: int|
                    (gx != coords.x as int || gy != coords.y as int || gz != coords.z as int)
                        ==> blocks_match(
                        old(self).spec_cell_at(gx, gy, gz),
                        #[trigger] final(self).spec_cell_at(gx, gy, gz),
                    )
                &&& forall|cx: int, cz: int|
                    old(self).has_chunk(cx, cz) ==> #[trigger] final(self).chunk_at(cx, cz).status
                        == (if near_chunk(
                        chunk_of(coords.x as int),
                        chunk_of(coords.z as int),
                        cx,
                        cz,
                    ) {
                        invalidated(old(self).chunk_at(cx, cz).status)
                    } else {
                        old(self).chunk_at(cx, cz).status
                    })
            },
    {
        if coords.y < 0 || coords.y >= WORLD_HEIGHT {
            return ;
        }
        if coords.x == i32::MIN || coords.x == i32::MAX || coords.z == i32::MIN || coords.z
            == i32::MAX {
            return ;
        }
        let (cc, _local) = to_local_chunk_coords(coords);
        let c_old = match self.get_cell(coords) {
            Some(c) => c,
            None => {
                return ;
            },
        };
        proof {
            self.lemma_cell_bounded(coords.x as int, coords.y as int, coords.z as int);
        }
        let nc = Cell {
            block_id,
            sun_light: c_old.sun_light,
            block_light: c_old.block_light,
        };
        self.set_cell(coords, nc);
        let ghost w1 = *self;
        proof {
            let cx0 = coords.x as int;
            let cy0 = coords.y as int;
            let cz0 = coords.z as int;
            assert(w1.spec_cell_at(cx0, cy0, cz0 - 1) == old(self).spec_cell_at(
                cx0,
                cy0,
                cz0 - 1,
            ));
            assert(w1.spec_cell_at(cx0, cy0, cz0 + 1) == old(self).spec_cell_at(
                cx0,
                cy0,
                cz0 + 1,
            ));
            assert(w1.spec_cell_at(cx0, cy0 - 1, cz0) == old(self).spec_cell_at(
                cx0,
                cy0 - 1,
                cz0,
            ));
            assert(w1.spec_cell_at(cx0, cy0 + 1, cz0) == old(self).spec_cell_at(
                cx0,
                cy0 + 1,
                cz0,
            ));
            assert(w1.spec_cell_at(cx0 - 1, cy0, cz0) == old(self).spec_cell_at(
                cx0 - 1,
                cy0,
                cz0,
            ));
            assert(w1.spec_cell_at(cx0 + 1, cy0, cz0) == old(self).spec_cell_at(
                cx0 + 1,
                cy0,
                cz0,
            ));
            assert(spec_nb_derived(w1, cx0, cy0, cz0, false) == spec_nb_derived(
                *old(self),
                cx0,
                cy0,
                cz0,
                false,
            ));
            assert(spec_nb_derived(w1, cx0, cy0, cz0, true) == spec_nb_derived(
                *old(self),
                cx0,
                cy0,
                cz0,
                true,
            ));
            assert(spec_light_at(w1, cx0, cy0 + 1, cz0, true) == spec_light_at(
                *old(self),
                cx0,
                cy0 + 1,
                cz0,
                true,
            ));
            if id_transparent(block_id) {
                assert(spec_derived(w1, cx0, cy0, cz0, false) == imax(
                    id_emission(block_id) as int,
                    spec_nb_derived(*old(self), cx0, cy0, cz0, false),
                ));
                assert(spec_derived(w1, cx0, cy0, cz0, true) == imax(
                    0,
                    spec_nb_derived(*old(self), cx0, cy0, cz0, true),
                ));
                assert(spec_nb_derived(*old(self), cx0, cy0, cz0, true) >= 0);
                assert(reopened_sun(w1, cx0, cy0, cz0) == (if spec_light_at(
                    *old(self),
                    cx0,
                    cy0 + 1,
                    cz0,
                    true,
                ) == 15 {
                    15int
                } else {
                    spec_nb_derived(*old(self), cx0, cy0, cz0, true)
                }));
            }
        }
        on_block_placed(self, coords);
        let ghost w2 = *self;
        self.invalidate_at(cc.x - 1, cc.z - 1);
        let ghost w3 = *self;
        self.invalidate_at(cc.x - 1, cc.z);
        let ghost w4 = *self;
        self.invalidate_at(cc.x - 1, cc.z + 1);
        let ghost w5 = *self;
        self.invalidate_at(cc.x, cc.z - 1);
        let ghost w6 = *self;
        self.invalidate_at(cc.x, cc.z);
        let ghost w7 = *self;
        self.invalidate_at(cc.x, cc.z + 1);
        let ghost w8 = *self;
        self.invalidate_at(cc.x + 1, cc.z - 1);
        let ghost w9 = *self;
        self.invalidate_at(cc.x + 1, cc.z);
        let ghost w10 = *self;
        self.invalidate_at(cc.x + 1, cc.z + 1);
        proof {
            let ccx = cc.x as int;
            let ccz = cc.z as int;
            let cx0 = coords.x as int;
            let cy0 = coords.y as int;
            let cz0 = coords.z as int;
            assert forall|gx: int, gy: int, gz: int|
                (gx != cx0 || gy != cy0 || gz != cz0) implies blocks_match(
                old(self).spec_cell_at(gx, gy, gz),
                #[trigger] self.spec_cell_at(gx, gy, gz),
            ) by {
                assert(w1.spec_cell_at(gx, gy, gz) == old(self).spec_cell_at(gx, gy, gz));
                assert(blocks_match(w1.spec_cell_at(gx, gy, gz), w2.spec_cell_at(gx, gy, gz)));
                assert(self.spec_cell_at(gx, gy, gz) == w2.spec_cell_at(gx, gy, gz));
            }
            assert(blocks_match(w1.spec_cell_at(cx0, cy0, cz0), w2.spec_cell_at(cx0, cy0, cz0)));
            assert(self.spec_cell_at(cx0, cy0, cz0) == w2.spec_cell_at(cx0, cy0, cz0));
            if !id_transparent(block_id) {
                assert forall|gx: int, gy: int, gz: int|
                    (gx != cx0 || gz != cz0 || gy > cy0) implies match (
                    old(self).spec_cell_at(gx, gy, gz),
                    #[trigger] self.spec_cell_at(gx, gy, gz),
                ) {
                    (Option::Some(a), Option::Some(b)) => b.sun_light == a.sun_light,
                    (Option::None, Option::None) => true,
                    _ => false,
                } by {
                    assert(w1.spec_cell_at(gx, gy, gz) == old(self).spec_cell_at(gx, gy, gz));
                    assert(match (w1.spec_cell_at(gx, gy, gz), w2.spec_cell_at(gx, gy, gz)) {
                        (Option::Some(a), Option::Some(b)) => b.sun_light == a.sun_light,
                        (Option::None, Option::None) => true,
                        _ => false,
                    });
                    assert(self.spec_cell_at(gx, gy, gz) == w2.spec_cell_at(gx, gy, gz));
                }
            }
            assert forall|cx: int, cz: int| old(self).has_chunk(cx, cz) implies (
            #[trigger] self.chunk_at(cx, cz)).status == (if near_chunk(ccx, ccz, cx, cz) {
                invalidated(old(self).chunk_at(cx, cz).status)
            } else {
                old(self).chunk_at(cx, cz).status
            }) by {
                let st0 = old(self).chunk_at(cx, cz).status;
                assert(w1.chunk_at(cx, cz).status == st0);
                assert(w2.chunk_at(cx, cz).status == st0);
                assert(w3.chunk_at(cx, cz).status == (if cx == ccx - 1 && cz == ccz - 1 {
                    invalidated(st0)
                } else {
                    st0
                }));
            }
        }
    }
}

} // verus!
