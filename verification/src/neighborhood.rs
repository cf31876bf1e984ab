//! Cell lookups spanning a home chunk and its up to 8 horizontal
//! neighbors.
//!
//! Coordinates are local to the home chunk; x and z offsets outside
//! [0, 16) are remapped into the matching neighbor chunk. Positions above
//! the world ceiling read as air in full sunlight; positions below the
//! floor, or in a chunk that is not loaded, read as unknown.
//!
//! The home chunk's cells are passed separately from the world so that a
//! caller may run a relaxation over a working copy while the neighbors
//! stay fixed.

use vstd::prelude::*;

use crate::blocks::{id_transparent, BlockId};
use crate::chunk::{cell_idx, in_chunk_bounds, Cell, LightLevel, CELL_COUNT};
use crate::coords::{chunk_of, local_of, ChunkCoords};
use crate::world::{lemma_find_props, World};

verus! {

/// Sentinel seen above the world ceiling: air in full sunlight.
pub open spec fn sky_cell() -> Cell {
    Cell { block_id: BlockId::Air, sun_light: 15, block_light: 0 }
}

/// Chunk coordinates small enough that neighbor offsets and block offsets
/// stay far from the i32 range ends.
pub open spec fn hc_bounded(hx: int, hz: int) -> bool {
    -1000000 <= hx <= 1000000 && -1000000 <= hz <= 1000000
}

/// The cell at coordinates local to the home chunk at (hx, hz), where
/// `home` holds the home chunk's cells: in-range coordinates read `home`,
/// out-of-range x/z read the matching neighbor chunk of `w`, above the
/// ceiling reads the sky sentinel, and below the floor reads None.
pub open spec fn spec_nb_cell(
    w: World,
    hx: int,
    hz: int,
    home: Seq<Cell>,
    x: int,
    y: int,
    z: int,
) -> Option<Cell> {
    if y >= 256 {
        Some(sky_cell())
    } else if y < 0 {
        None
    } else if in_chunk_bounds(x, y, z) {
        Some(home[cell_idx(x, y, z)])
    } else {
        let cx = hx + chunk_of(x);
        let cz = hz + chunk_of(z);
        if w.has_chunk(cx, cz) {
            Some(w.chunk_at(cx, cz).data@[cell_idx(local_of(x), y, local_of(z))])
        } else {
            None
        }
    }
}

/// Light contributed by the cell at the given local coordinates towards a
/// neighboring cell: its channel value when it is a known transparent
/// cell, 0 otherwise. `sun` selects the sunlight channel.
pub open spec fn spec_nb_light(
    w: World,
    hx: int,
    hz: int,
    home: Seq<Cell>,
    x: int,
    y: int,
    z: int,
    sun: bool,
) -> int {
    match spec_nb_cell(w, hx, hz, home, x, y, z) {
        Some(c) => if id_transparent(c.block_id) {
            if sun {
                c.sun_light as int
            } else {
                c.block_light as int
            }
        } else {
            0
        },
        None => 0,
    }
}

/// One step of light decay: a light level loses one, clamped at 0.
pub open spec fn spec_propagated(l: int) -> int {
    if l > 0 {
        l - 1
    } else {
        0
    }
}

/// The larger of two integers.
pub open spec fn imax(a: int, b: int) -> int {
    if a >= b {
        a
    } else {
        b
    }
}

/// The light the cell at in-bounds local coordinates receives from its six
/// neighbors: the maximum of their decayed contributions.
pub open spec fn received_light(
    w: World,
    hx: int,
    hz: int,
    home: Seq<Cell>,
    x: int,
    y: int,
    z: int,
    sun: bool,
) -> int {
    imax(
        imax(
            spec_propagated(spec_nb_light(w, hx, hz, home, x, y, z - 1, sun)),
            spec_propagated(spec_nb_light(w, hx, hz, home, x, y, z + 1, sun)),
        ),
        imax(
            imax(
                spec_propagated(spec_nb_light(w, hx, hz, home, x, y - 1, z, sun)),
                spec_propagated(spec_nb_light(w, hx, hz, home, x, y + 1, z, sun)),
            ),
            imax(
                spec_propagated(spec_nb_light(w, hx, hz, home, x - 1, y, z, sun)),
                spec_propagated(spec_nb_light(w, hx, hz, home, x + 1, y, z, sun)),
            ),
        ),
    )
}

/// The cell at in-bounds local coordinates after one relaxation step: an
/// opaque cell is unchanged; a transparent cell raises each light channel
/// to at least what it receives from its neighbors.
pub open spec fn relaxed_cell(
    w: World,
    hx: int,
    hz: int,
    home: Seq<Cell>,
    x: int,
    y: int,
    z: int,
) -> Cell {
    let c = home[cell_idx(x, y, z)];
    if !id_transparent(c.block_id) {
        c
    } else {
        Cell {
            block_id: c.block_id,
            sun_light: imax(c.sun_light as int, received_light(w, hx, hz, home, x, y, z, true)) as u8,
            block_light: imax(
                c.block_light as int,
                received_light(w, hx, hz, home, x, y, z, false),
            ) as u8,
        }
    }
}

/// One step of light decay, executable form.
pub fn propagated(light: LightLevel) -> (r: LightLevel)
    ensures
        r as int == spec_propagated(light as int),
{
    if light > 0 {
        light - 1
    } else {
        0
    }
}

/// The cell at coordinates local to the home chunk; see `spec_nb_cell`.
pub fn nb_cell(
    world: &World,
    home_coords: ChunkCoords,
    home: &Vec<Cell>,
    x: i32,
    y: i32,
    z: i32,
) -> (r: Option<Cell>)
    requires
        world.wf(),
        home@.len() == CELL_COUNT,
        hc_bounded(home_coords.x as int, home_coords.z as int),
        -16 <= x < 32,
        -16 <= z < 32,
    ensures
        r == spec_nb_cell(
            *world,
            home_coords.x as int,
            home_coords.z as int,
            home@,
            x as int,
            y as int,
            z as int,
        ),
{
    if y >= 256 {
        return Some(Cell { block_id: BlockId::Air, sun_light: 15, block_light: 0 });
    }
    if y < 0 {
        return None;
    }
    if 0 <= x && x < 16 && 0 <= z && z < 16 {
        let idx: usize = ((x as usize) * 256 + (y as usize)) * 16 + (z as usize);
        return Some(home[idx]);
    }
    let cx = home_coords.x + x.checked_div_euclid(16).unwrap();
    let cz = home_coords.z + z.checked_div_euclid(16).unwrap();
    let lx = x.checked_rem_euclid(16).unwrap();
    let lz = z.checked_rem_euclid(16).unwrap();
    proof {
        lemma_find_props(world.slots@, 0, cx as int, cz as int);
    }
    match world.find(cx, cz) {
        Some(i) => {
            let chunk = &world.slots[i].chunk;
            let idx: usize = ((lx as usize) * 256 + (y as usize)) * 16 + (lz as usize);
            Some(chunk.data[idx])
        },
        None => None,
    }
}

/// Light contribution of the cell at the given local coordinates; see
/// `spec_nb_light`.
pub fn nb_light(
    world: &World,
    home_coords: ChunkCoords,
    home: &Vec<Cell>,
    x: i32,
    y: i32,
    z: i32,
    sun: bool,
) -> (r: LightLevel)
    requires
        world.wf(),
        home@.len() == CELL_COUNT,
        hc_bounded(home_coords.x as int, home_coords.z as int),
        -16 <= x < 32,
        -16 <= z < 32,
    ensures
        r as int == spec_nb_light(
            *world,
            home_coords.x as int,
            home_coords.z as int,
            home@,
            x as int,
            y as int,
            z as int,
            sun,
        ),
{
    match nb_cell(world, home_coords, home, x, y, z) {
        Some(c) => {
            if c.get_block().is_transparent() {
                if sun {
                    c.sun_light
                } else {
                    c.block_light
                }
            } else {
                0
            }
        },
        None => 0,
    }
}

/// The light received from the six neighbors of an in-bounds cell; see
/// `received_light`.
pub fn received(
    world: &World,
    home_coords: ChunkCoords,
    home: &Vec<Cell>,
    x: i32,
    y: i32,
    z: i32,
    sun: bool,
) -> (r: LightLevel)
    requires
        world.wf(),
        home@.len() == CELL_COUNT,
        hc_bounded(home_coords.x as int, home_coords.z as int),
        in_chunk_bounds(x as int, y as int, z as int),
    ensures
        r as int == received_light(
            *world,
            home_coords.x as int,
            home_coords.z as int,
            home@,
            x as int,
            y as int,
            z as int,
            sun,
        ),
{
    let a = propagated(nb_light(world, home_coords, home, x, y, z - 1, sun));
    let b = propagated(nb_light(world, home_coords, home, x, y, z + 1, sun));
    let c = propagated(nb_light(world, home_coords, home, x, y - 1, z, sun));
    let d = propagated(nb_light(world, home_coords, home, x, y + 1, z, sun));
    let e = propagated(nb_light(world, home_coords, home, x - 1, y, z, sun));
    let f = propagated(nb_light(world, home_coords, home, x + 1, y, z, sun));
    let ab = if a >= b {
        a
    } else {
        b
    };
    let cd = if c >= d {
        c
    } else {
        d
    };
    let ef = if e >= f {
        e
    } else {
        f
    };
    let cdef = if cd >= ef {
        cd
    } else {
        ef
    };
    if ab >= cdef {
        ab
    } else {
        cdef
    }
}

} // verus!
