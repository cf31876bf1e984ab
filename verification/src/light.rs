//! Full lighting recompute for one chunk.
//!
//! Two independent 4-bit channels are computed: sunlight, seeded by a
//! top-down column sweep, and block light, seeded by each cell's own
//! emission. Sixteen relaxation passes then spread both channels: each
//! pass raises every transparent cell's channel to at least one less than
//! the best transparent neighbor, looking across chunk borders through
//! the neighborhood. Sixteen passes suffice because a light level is at
//! most 15.

use vstd::arithmetic::div_mod::lemma_fundamental_div_mod_converse_div;
use vstd::prelude::*;

use crate::blocks::{id_emission, id_transparent, Block};
use crate::chunk::{
    cell_idx, in_chunk_bounds, ix, iy, iz, lemma_coords_of_idx, lemma_idx_of_coords,
    lemma_idx_of_coords_all, lights_bounded, Cell, CELL_COUNT,
};
use crate::coords::ChunkCoords;
use crate::neighborhood::{
    hc_bounded, received, received_light, relaxed_cell, spec_nb_cell, spec_nb_light,
    spec_propagated,
};
use crate::world::{lemma_find_props, lemma_find_same_coords, find_from, find_slot, same_aux, World};

verus! {

/// Every cell of the column at (x, z) from y upward is transparent, so
/// the sky is visible from (x, y, z) straight up.
pub open spec fn column_clear(data: Seq<Cell>, x: int, y: int, z: int) -> bool {
    forall|y2: int| y <= y2 < 256 ==> id_transparent(data[#[trigger] cell_idx(x, y2, z)].block_id)
}

/// The cell at linear index i after the seeding sweep: sunlight 15 under
/// open sky and 0 otherwise, block light equal to the cell's emission.
pub open spec fn swept_cell(data: Seq<Cell>, i: int) -> Cell {
    let c = data[i];
    Cell {
        block_id: c.block_id,
        sun_light: if column_clear(data, ix(i), iy(i), iz(i)) {
            15
        } else {
            0
        },
        block_light: id_emission(c.block_id),
    }
}

/// The whole chunk after the seeding sweep.
pub open spec fn sweep_spec(data: Seq<Cell>) -> Seq<Cell> {
    Seq::new(CELL_COUNT as nat, |i: int| swept_cell(data, i))
}

/// The whole chunk after one relaxation pass, with neighbors read from
/// the world as it stands.
pub open spec fn pass_spec(w: World, hx: int, hz: int, home: Seq<Cell>) -> Seq<Cell> {
    Seq::new(CELL_COUNT as nat, |i: int| relaxed_cell(w, hx, hz, home, ix(i), iy(i), iz(i)))
}

/// The chunk after n relaxation passes.
pub open spec fn passes_spec(w: World, hx: int, hz: int, home: Seq<Cell>, n: nat) -> Seq<Cell>
    decreases n,
{
    if n == 0 {
        home
    } else {
        pass_spec(w, hx, hz, passes_spec(w, hx, hz, home, (n - 1) as nat))
    }
}

/// The full lighting recompute of the chunk at (hx, hz): the seeding
/// sweep of its cells followed by sixteen relaxation passes.
pub open spec fn recompute_spec(w: World, hx: int, hz: int) -> Seq<Cell> {
    passes_spec(w, hx, hz, sweep_spec(w.chunk_at(hx, hz).data@), 16)
}

/// A chunk's lighting is converged when one more relaxation pass changes
/// nothing.
pub open spec fn converged(w: World, hx: int, hz: int, home: Seq<Cell>) -> bool {
    pass_spec(w, hx, hz, home) == home
}

/// Two local positions are 6-adjacent: they differ by exactly one step
/// along exactly one axis.
pub open spec fn is_adjacent(x1: int, y1: int, z1: int, x2: int, y2: int, z2: int) -> bool {
    ||| (x2 == x1 + 1 && y2 == y1 && z2 == z1)
    ||| (x2 == x1 - 1 && y2 == y1 && z2 == z1)
    ||| (x2 == x1 && y2 == y1 + 1 && z2 == z1)
    ||| (x2 == x1 && y2 == y1 - 1 && z2 == z1)
    ||| (x2 == x1 && y2 == y1 && z2 == z1 + 1)
    ||| (x2 == x1 && y2 == y1 && z2 == z1 - 1)
}

/// At convergence a transparent cell holds at least one less than any
/// adjacent transparent neighborhood cell, in both channels; the
/// neighbor may lie in an adjacent chunk.
#[verifier::rlimit(60)]
proof fn lemma_converged_raises_from(
    w: World,
    hx: int,
    hz: int,
    home: Seq<Cell>,
    x1: int,
    y1: int,
    z1: int,
    x2: int,
    y2: int,
    z2: int,
    sun: bool,
)
    requires
        w.wf(),
        home.len() == CELL_COUNT,
        lights_bounded(home),
        converged(w, hx, hz, home),
        in_chunk_bounds(x2, y2, z2),
        is_adjacent(x1, y1, z1, x2, y2, z2),
        spec_nb_cell(w, hx, hz, home, x1, y1, z1) is Some,
        id_transparent(spec_nb_cell(w, hx, hz, home, x1, y1, z1).unwrap().block_id),
        id_transparent(home[cell_idx(x2, y2, z2)].block_id),
    ensures
        sun ==> home[cell_idx(x2, y2, z2)].sun_light >= spec_nb_cell(
            w,
            hx,
            hz,
            home,
            x1,
            y1,
            z1,
        ).unwrap().sun_light - 1,
        !sun ==> home[cell_idx(x2, y2, z2)].block_light >= spec_nb_cell(
            w,
            hx,
            hz,
            home,
            x1,
            y1,
            z1,
        ).unwrap().block_light - 1,
{
    let i2 = cell_idx(x2, y2, z2);
    lemma_idx_of_coords(x2, y2, z2);
    let p = pass_spec(w, hx, hz, home);
    assert(p[i2] == relaxed_cell(w, hx, hz, home, x2, y2, z2));
    assert(home[i2] == p[i2]);
    let c1 = spec_nb_light(w, hx, hz, home, x1, y1, z1, sun);
    let rcv = received_light(w, hx, hz, home, x2, y2, z2, sun);
    if x1 == x2 + 1 {
        assert(rcv >= spec_propagated(spec_nb_light(w, hx, hz, home, x2 + 1, y2, z2, sun)));
    } else if x1 == x2 - 1 {
        assert(rcv >= spec_propagated(spec_nb_light(w, hx, hz, home, x2 - 1, y2, z2, sun)));
    } else if y1 == y2 + 1 {
        assert(rcv >= spec_propagated(spec_nb_light(w, hx, hz, home, x2, y2 + 1, z2, sun)));
    } else if y1 == y2 - 1 {
        assert(rcv >= spec_propagated(spec_nb_light(w, hx, hz, home, x2, y2 - 1, z2, sun)));
    } else if z1 == z2 + 1 {
        assert(rcv >= spec_propagated(spec_nb_light(w, hx, hz, home, x2, y2, z2 + 1, sun)));
    } else {
        assert(rcv >= spec_propagated(spec_nb_light(w, hx, hz, home, x2, y2, z2 - 1, sun)));
    }
    assert(rcv >= spec_propagated(c1));
    lemma_nb_light_bounded(w, hx, hz, home, x2, y2, z2 - 1, sun);
    lemma_nb_light_bounded(w, hx, hz, home, x2, y2, z2 + 1, sun);
    lemma_nb_light_bounded(w, hx, hz, home, x2, y2 - 1, z2, sun);
    lemma_nb_light_bounded(w, hx, hz, home, x2, y2 + 1, z2, sun);
    lemma_nb_light_bounded(w, hx, hz, home, x2 - 1, y2, z2, sun);
    lemma_nb_light_bounded(w, hx, hz, home, x2 + 1, y2, z2, sun);
}

/// Light Lipschitz property: at convergence, any two 6-adjacent
/// transparent cells of the chunk differ by at most one in each light
/// channel.
pub proof fn lemma_light_lipschitz(
    w: World,
    hx: int,
    hz: int,
    home: Seq<Cell>,
    x1: int,
    y1: int,
    z1: int,
    x2: int,
    y2: int,
    z2: int,
)
    requires
        w.wf(),
        home.len() == CELL_COUNT,
        lights_bounded(home),
        converged(w, hx, hz, home),
        in_chunk_bounds(x1, y1, z1),
        in_chunk_bounds(x2, y2, z2),
        is_adjacent(x1, y1, z1, x2, y2, z2),
        id_transparent(home[cell_idx(x1, y1, z1)].block_id),
        id_transparent(home[cell_idx(x2, y2, z2)].block_id),
    ensures
        -1 <= home[cell_idx(x1, y1, z1)].sun_light - home[cell_idx(x2, y2, z2)].sun_light <= 1,
        -1 <= home[cell_idx(x1, y1, z1)].block_light - home[cell_idx(x2, y2, z2)].block_light
            <= 1,
{
    lemma_idx_of_coords(x1, y1, z1);
    assert(spec_nb_cell(w, hx, hz, home, x1, y1, z1) == Some(home[cell_idx(x1, y1, z1)]));
    assert(spec_nb_cell(w, hx, hz, home, x2, y2, z2) == Some(home[cell_idx(x2, y2, z2)]));
    lemma_converged_raises_from(w, hx, hz, home, x1, y1, z1, x2, y2, z2, true);
    lemma_converged_raises_from(w, hx, hz, home, x1, y1, z1, x2, y2, z2, false);
    lemma_converged_raises_from(w, hx, hz, home, x2, y2, z2, x1, y1, z1, true);
    lemma_converged_raises_from(w, hx, hz, home, x2, y2, z2, x1, y1, z1, false);
}

/// The Lipschitz property across a chunk border along x: at convergence
/// of both chunks, the last column of one and the first column of the
/// next differ by at most one in each channel, cell by cell.
pub proof fn lemma_light_lipschitz_across_x(w: World, hx: int, hz: int, y: int, z: int)
    requires
        w.wf(),
        w.has_chunk(hx, hz),
        w.has_chunk(hx + 1, hz),
        converged(w, hx, hz, w.chunk_at(hx, hz).data@),
        converged(w, hx + 1, hz, w.chunk_at(hx + 1, hz).data@),
        0 <= y < 256,
        0 <= z < 16,
        id_transparent(w.chunk_at(hx, hz).data@[cell_idx(15, y, z)].block_id),
        id_transparent(w.chunk_at(hx + 1, hz).data@[cell_idx(0, y, z)].block_id),
    ensures
        -1 <= w.chunk_at(hx, hz).data@[cell_idx(15, y, z)].sun_light - w.chunk_at(
            hx + 1,
            hz,
        ).data@[cell_idx(0, y, z)].sun_light <= 1,
        -1 <= w.chunk_at(hx, hz).data@[cell_idx(15, y, z)].block_light - w.chunk_at(
            hx + 1,
            hz,
        ).data@[cell_idx(0, y, z)].block_light <= 1,
{
    let da = w.chunk_at(hx, hz).data@;
    let db = w.chunk_at(hx + 1, hz).data@;
    lemma_find_props(w.slots@, 0, hx, hz);
    lemma_find_props(w.slots@, 0, hx + 1, hz);
    lemma_idx_of_coords(15, y, z);
    lemma_idx_of_coords(0, y, z);
    assert(16int / 16 == 1 && 16int % 16 == 0) by {
        lemma_fundamental_div_mod_converse_div(16, 16, 1, 0);
        vstd::arithmetic::div_mod::lemma_fundamental_div_mod_converse_mod(16, 16, 1, 0);
    }
    assert((-1int) / 16 == -1 && (-1int) % 16 == 15) by {
        lemma_fundamental_div_mod_converse_div(-1, 16, -1, 15);
        vstd::arithmetic::div_mod::lemma_fundamental_div_mod_converse_mod(-1, 16, -1, 15);
    }
    assert(z / 16 == 0 && z % 16 == z) by {
        lemma_fundamental_div_mod_converse_div(z, 16, 0, z);
        vstd::arithmetic::div_mod::lemma_fundamental_div_mod_converse_mod(z, 16, 0, z);
    }
    assert(spec_nb_cell(w, hx, hz, da, 16, y, z) == Some(db[cell_idx(0, y, z)]));
    assert(spec_nb_cell(w, hx + 1, hz, db, -1, y, z) == Some(da[cell_idx(15, y, z)]));
    lemma_converged_raises_from(w, hx, hz, da, 16, y, z, 15, y, z, true);
    lemma_converged_raises_from(w, hx, hz, da, 16, y, z, 15, y, z, false);
    lemma_converged_raises_from(w, hx + 1, hz, db, -1, y, z, 0, y, z, true);
    lemma_converged_raises_from(w, hx + 1, hz, db, -1, y, z, 0, y, z, false);
}

/// The Lipschitz property across a chunk border along z; the mirror of
/// `lemma_light_lipschitz_across_x`.
pub proof fn lemma_light_lipschitz_across_z(w: World, hx: int, hz: int, x: int, y: int)
    requires
        w.wf(),
        w.has_chunk(hx, hz),
        w.has_chunk(hx, hz + 1),
        converged(w, hx, hz, w.chunk_at(hx, hz).data@),
        converged(w, hx, hz + 1, w.chunk_at(hx, hz + 1).data@),
        0 <= y < 256,
        0 <= x < 16,
        id_transparent(w.chunk_at(hx, hz).data@[cell_idx(x, y, 15)].block_id),
        id_transparent(w.chunk_at(hx, hz + 1).data@[cell_idx(x, y, 0)].block_id),
    ensures
        -1 <= w.chunk_at(hx, hz).data@[cell_idx(x, y, 15)].sun_light - w.chunk_at(
            hx,
            hz + 1,
        ).data@[cell_idx(x, y, 0)].sun_light <= 1,
        -1 <= w.chunk_at(hx, hz).data@[cell_idx(x, y, 15)].block_light - w.chunk_at(
            hx,
            hz + 1,
        ).data@[cell_idx(x, y, 0)].block_light <= 1,
{
    let da = w.chunk_at(hx, hz).data@;
    let db = w.chunk_at(hx, hz + 1).data@;
    lemma_find_props(w.slots@, 0, hx, hz);
    lemma_find_props(w.slots@, 0, hx, hz + 1);
    lemma_idx_of_coords(x, y, 15);
    lemma_idx_of_coords(x, y, 0);
    assert(16int / 16 == 1 && 16int % 16 == 0) by {
        lemma_fundamental_div_mod_converse_div(16, 16, 1, 0);
        vstd::arithmetic::div_mod::lemma_fundamental_div_mod_converse_mod(16, 16, 1, 0);
    }
    assert((-1int) / 16 == -1 && (-1int) % 16 == 15) by {
        lemma_fundamental_div_mod_converse_div(-1, 16, -1, 15);
        vstd::arithmetic::div_mod::lemma_fundamental_div_mod_converse_mod(-1, 16, -1, 15);
    }
    assert(x / 16 == 0 && x % 16 == x) by {
        lemma_fundamental_div_mod_converse_div(x, 16, 0, x);
        vstd::arithmetic::div_mod::lemma_fundamental_div_mod_converse_mod(x, 16, 0, x);
    }
    assert(spec_nb_cell(w, hx, hz, da, x, y, 16) == Some(db[cell_idx(x, y, 0)]));
    assert(spec_nb_cell(w, hx, hz + 1, db, x, y, -1) == Some(da[cell_idx(x, y, 15)]));
    lemma_converged_raises_from(w, hx, hz, da, x, y, 16, x, y, 15, true);
    lemma_converged_raises_from(w, hx, hz, da, x, y, 16, x, y, 15, false);
    lemma_converged_raises_from(w, hx, hz + 1, db, x, y, -1, x, y, 0, true);
    lemma_converged_raises_from(w, hx, hz + 1, db, x, y, -1, x, y, 0, false);
}

/// A relaxation pass never changes a cell's block identifier.
proof fn lemma_pass_preserves_blocks(w: World, hx: int, hz: int, home: Seq<Cell>)
    ensures
        forall|i: int|
            0 <= i < CELL_COUNT ==> (#[trigger] pass_spec(w, hx, hz, home)[i]).block_id
                == home[i].block_id,
{
    assert forall|i: int| 0 <= i < CELL_COUNT implies (#[trigger] pass_spec(w, hx, hz, home)[i]).block_id
        == home[i].block_id by {
        lemma_coords_of_idx(i);
    }
}

/// Any number of relaxation passes keeps every block identifier.
proof fn lemma_passes_preserves_blocks(w: World, hx: int, hz: int, home: Seq<Cell>, n: nat)
    requires
        home.len() == CELL_COUNT,
    ensures
        passes_spec(w, hx, hz, home, n).len() == CELL_COUNT,
        forall|i: int|
            0 <= i < CELL_COUNT ==> (#[trigger] passes_spec(w, hx, hz, home, n)[i]).block_id
                == home[i].block_id,
    decreases n,
{
    if n > 0 {
        lemma_passes_preserves_blocks(w, hx, hz, home, (n - 1) as nat);
        lemma_pass_preserves_blocks(w, hx, hz, passes_spec(w, hx, hz, home, (n - 1) as nat));
    }
}

/// The seeding sweep reads only block identifiers, so two cell vectors
/// with the same blocks sweep to the same seed.
proof fn lemma_sweep_blocks_only(d1: Seq<Cell>, d2: Seq<Cell>)
    requires
        d1.len() == CELL_COUNT,
        d2.len() == CELL_COUNT,
        forall|i: int| 0 <= i < CELL_COUNT ==> (#[trigger] d2[i]).block_id == d1[i].block_id,
    ensures
        sweep_spec(d2) == sweep_spec(d1),
{
    lemma_idx_of_coords_all();
    assert forall|i: int| 0 <= i < CELL_COUNT implies swept_cell(d2, i) == swept_cell(d1, i) by {
        lemma_coords_of_idx(i);
        let x = ix(i);
        let y = iy(i);
        let z = iz(i);
        assert forall|y2: int|
            y <= y2 < 256 implies id_transparent(d2[#[trigger] cell_idx(x, y2, z)].block_id)
            == id_transparent(d1[cell_idx(x, y2, z)].block_id) by {
            lemma_idx_of_coords(x, y2, z);
        }
        assert(column_clear(d2, x, y, z) == column_clear(d1, x, y, z));
    }
    assert(sweep_spec(d2) =~= sweep_spec(d1));
}

/// Two worlds that agree on every chunk other than the home chunk give
/// the same neighborhood lookups around the home chunk.
proof fn lemma_nb_cell_frame(
    w1: World,
    w2: World,
    hx: int,
    hz: int,
    home: Seq<Cell>,
    x: int,
    y: int,
    z: int,
)
    requires
        forall|cx: int, cz: int| #[trigger] w2.has_chunk(cx, cz) == w1.has_chunk(cx, cz),
        forall|cx: int, cz: int|
            (cx != hx || cz != hz) && w1.has_chunk(cx, cz) ==> #[trigger] w2.chunk_at(cx, cz)
                == w1.chunk_at(cx, cz),
        -16 <= x < 32,
        -16 <= z < 32,
    ensures
        spec_nb_cell(w2, hx, hz, home, x, y, z) == spec_nb_cell(w1, hx, hz, home, x, y, z),
{
    if 0 <= y < 256 && !in_chunk_bounds(x, y, z) {
        if -16 <= x < 0 {
            lemma_fundamental_div_mod_converse_div(x, 16, -1, x + 16);
        } else if 0 <= x < 16 {
            lemma_fundamental_div_mod_converse_div(x, 16, 0, x);
        } else {
            lemma_fundamental_div_mod_converse_div(x, 16, 1, x - 16);
        }
        if -16 <= z < 0 {
            lemma_fundamental_div_mod_converse_div(z, 16, -1, z + 16);
        } else if 0 <= z < 16 {
            lemma_fundamental_div_mod_converse_div(z, 16, 0, z);
        } else {
            lemma_fundamental_div_mod_converse_div(z, 16, 1, z - 16);
        }
        assert(hx + x / 16 != hx || hz + z / 16 != hz);
    }
}

/// Two worlds that agree on every chunk other than the home chunk relax a
/// working copy identically.
proof fn lemma_pass_frame(w1: World, w2: World, hx: int, hz: int, home: Seq<Cell>)
    requires
        forall|cx: int, cz: int| #[trigger] w2.has_chunk(cx, cz) == w1.has_chunk(cx, cz),
        forall|cx: int, cz: int|
            (cx != hx || cz != hz) && w1.has_chunk(cx, cz) ==> #[trigger] w2.chunk_at(cx, cz)
                == w1.chunk_at(cx, cz),
    ensures
        pass_spec(w2, hx, hz, home) == pass_spec(w1, hx, hz, home),
{
    assert forall|i: int| 0 <= i < CELL_COUNT implies relaxed_cell(w2, hx, hz, home, ix(i), iy(i), iz(i))
        == relaxed_cell(w1, hx, hz, home, ix(i), iy(i), iz(i)) by {
        lemma_coords_of_idx(i);
        let x = ix(i);
        let y = iy(i);
        let z = iz(i);
        lemma_nb_cell_frame(w1, w2, hx, hz, home, x, y, z - 1);
        lemma_nb_cell_frame(w1, w2, hx, hz, home, x, y, z + 1);
        lemma_nb_cell_frame(w1, w2, hx, hz, home, x, y - 1, z);
        lemma_nb_cell_frame(w1, w2, hx, hz, home, x, y + 1, z);
        lemma_nb_cell_frame(w1, w2, hx, hz, home, x - 1, y, z);
        lemma_nb_cell_frame(w1, w2, hx, hz, home, x + 1, y, z);
    }
    assert(pass_spec(w2, hx, hz, home) =~= pass_spec(w1, hx, hz, home));
}

/// `lemma_pass_frame`, iterated.
proof fn lemma_passes_frame(w1: World, w2: World, hx: int, hz: int, home: Seq<Cell>, n: nat)
    requires
        forall|cx: int, cz: int| #[trigger] w2.has_chunk(cx, cz) == w1.has_chunk(cx, cz),
        forall|cx: int, cz: int|
            (cx != hx || cz != hz) && w1.has_chunk(cx, cz) ==> #[trigger] w2.chunk_at(cx, cz)
                == w1.chunk_at(cx, cz),
    ensures
        passes_spec(w2, hx, hz, home, n) == passes_spec(w1, hx, hz, home, n),
    decreases n,
{
    if n > 0 {
        lemma_passes_frame(w1, w2, hx, hz, home, (n - 1) as nat);
        lemma_pass_frame(w1, w2, hx, hz, passes_spec(w1, hx, hz, home, (n - 1) as nat));
    }
}

/// Idempotent recompute: the full recompute reads only the home chunk's
/// block identifiers and the neighbor chunks, so running it again on a
/// world whose home chunk already holds the recompute result changes
/// nothing.
pub proof fn lemma_recompute_idempotent(w1: World, w2: World, hx: int, hz: int)
    requires
        w1.wf(),
        w1.has_chunk(hx, hz),
        w2.has_chunk(hx, hz),
        forall|cx: int, cz: int| #[trigger] w2.has_chunk(cx, cz) == w1.has_chunk(cx, cz),
        forall|cx: int, cz: int|
            (cx != hx || cz != hz) && w1.has_chunk(cx, cz) ==> #[trigger] w2.chunk_at(cx, cz)
                == w1.chunk_at(cx, cz),
        w2.chunk_at(hx, hz).data@ == recompute_spec(w1, hx, hz),
    ensures
        recompute_spec(w2, hx, hz) == recompute_spec(w1, hx, hz),
{
    lemma_find_props(w1.slots@, 0, hx, hz);
    let d1 = w1.chunk_at(hx, hz).data@;
    let s0 = sweep_spec(d1);
    let r1 = recompute_spec(w1, hx, hz);
    assert(d1.len() == CELL_COUNT);
    assert(s0.len() == CELL_COUNT);
    lemma_passes_preserves_blocks(w1, hx, hz, s0, 16);
    assert forall|i: int| 0 <= i < CELL_COUNT implies (#[trigger] r1[i]).block_id == d1[i].block_id by {
        assert(r1[i].block_id == s0[i].block_id);
        assert(s0[i] == swept_cell(d1, i));
    }
    lemma_sweep_blocks_only(d1, r1);
    lemma_passes_frame(w1, w2, hx, hz, s0, 16);
}

/// Whether the sky is visible straight up from (x, y, z); see
/// `column_clear`.
fn check_column_clear(data: &Vec<Cell>, x: usize, y: usize, z: usize) -> (r: bool)
    requires
        data@.len() == CELL_COUNT,
        in_chunk_bounds(x as int, y as int, z as int),
    ensures
        r == column_clear(data@, x as int, y as int, z as int),
{
    let mut y2: usize = y;
    while y2 < 256
        invariant
            y <= y2 <= 256,
            data@.len() == CELL_COUNT,
            x < 16,
            z < 16,
            forall|y3: int|
                y <= y3 < y2 ==> id_transparent(
                    data@[#[trigger] cell_idx(x as int, y3, z as int)].block_id,
                ),
        decreases 256 - y2,
    {
        let idx: usize = (x * 256 + y2) * 16 + z;
        if !Block::by_id(data[idx].block_id).is_transparent() {
            proof {
                assert(idx as int == cell_idx(x as int, y2 as int, z as int));
                assert(!id_transparent(data@[cell_idx(x as int, y2 as int, z as int)].block_id));
            }
            return false;
        }
        y2 = y2 + 1;
    }
    true
}

/// Seeds both channels of a fresh cell vector from the given cells; see
/// `sweep_spec`.
#[verifier::loop_isolation(false)]
fn sweep(data: &Vec<Cell>) -> (r: Vec<Cell>)
    requires
        data@.len() == CELL_COUNT,
    ensures
        r@ == sweep_spec(data@),
        lights_bounded(r@),
{
    proof {
        lemma_idx_of_coords_all();
    }
    let mut out: Vec<Cell> = Vec::with_capacity(CELL_COUNT);
    let mut x: usize = 0;
    while x < 16
        invariant
            x <= 16,
            out@.len() == x * 4096,
            forall|j: int| 0 <= j < out@.len() ==> out@[j] == swept_cell(data@, j),
        decreases 16 - x,
    {
        let mut y: usize = 0;
        while y < 256
            invariant
                y <= 256,
                out@.len() == x * 4096 + y * 16,
                forall|j: int| 0 <= j < out@.len() ==> out@[j] == swept_cell(data@, j),
            decreases 256 - y,
        {
            let mut z: usize = 0;
            while z < 16
                invariant
                    z <= 16,
                    out@.len() == x * 4096 + y * 16 + z,
                    forall|j: int| 0 <= j < out@.len() ==> out@[j] == swept_cell(data@, j),
                decreases 16 - z,
            {
                let idx: usize = (x * 256 + y) * 16 + z;
                let c = data[idx];
                let sun: u8 = if check_column_clear(data, x, y, z) {
                    15
                } else {
                    0
                };
                let cell = Cell {
                    block_id: c.block_id,
                    sun_light: sun,
                    block_light: Block::by_id(c.block_id).light_level(),
                };
                proof {
                    lemma_idx_of_coords(x as int, y as int, z as int);
                    assert(id_emission(c.block_id) <= 15);
                }
                out.push(cell);
                z = z + 1;
            }
            y = y + 1;
        }
        x = x + 1;
    }
    proof {
        assert(out@ =~= sweep_spec(data@));
    }
    out
}

/// Light contributions never exceed 15 when the world and the working
/// cells are well formed.
pub proof fn lemma_nb_light_bounded(
    w: World,
    hx: int,
    hz: int,
    home: Seq<Cell>,
    x: int,
    y: int,
    z: int,
    sun: bool,
)
    requires
        w.wf(),
        home.len() == CELL_COUNT,
        lights_bounded(home),
    ensures
        0 <= spec_nb_light(w, hx, hz, home, x, y, z, sun) <= 15,
{
    match spec_nb_cell(w, hx, hz, home, x, y, z) {
        Some(c) => {
            if 0 <= y < 256 && in_chunk_bounds(x, y, z) {
                lemma_idx_of_coords(x, y, z);
            } else if 0 <= y < 256 {
                let cx = hx + (x / 16);
                let cz = hz + (z / 16);
                if w.has_chunk(cx, cz) {
                    lemma_find_props(w.slots@, 0, cx, cz);
                    lemma_idx_of_coords(x % 16, y, z % 16);
                }
            }
        },
        None => {},
    }
}

/// One relaxation pass keeps both channels within [0, 15].
pub proof fn lemma_pass_bounded(w: World, hx: int, hz: int, home: Seq<Cell>)
    requires
        w.wf(),
        home.len() == CELL_COUNT,
        lights_bounded(home),
    ensures
        lights_bounded(pass_spec(w, hx, hz, home)),
{
    let out = pass_spec(w, hx, hz, home);
    assert forall|i: int| 0 <= i < out.len() implies (#[trigger] out[i]).sun_light <= 15
        && out[i].block_light <= 15 by {
        lemma_coords_of_idx(i);
        let x = ix(i);
        let y = iy(i);
        let z = iz(i);
        lemma_nb_light_bounded(w, hx, hz, home, x, y, z - 1, true);
        lemma_nb_light_bounded(w, hx, hz, home, x, y, z + 1, true);
        lemma_nb_light_bounded(w, hx, hz, home, x, y - 1, z, true);
        lemma_nb_light_bounded(w, hx, hz, home, x, y + 1, z, true);
        lemma_nb_light_bounded(w, hx, hz, home, x - 1, y, z, true);
        lemma_nb_light_bounded(w, hx, hz, home, x + 1, y, z, true);
        lemma_nb_light_bounded(w, hx, hz, home, x, y, z - 1, false);
        lemma_nb_light_bounded(w, hx, hz, home, x, y, z + 1, false);
        lemma_nb_light_bounded(w, hx, hz, home, x, y - 1, z, false);
        lemma_nb_light_bounded(w, hx, hz, home, x, y + 1, z, false);
        lemma_nb_light_bounded(w, hx, hz, home, x - 1, y, z, false);
        lemma_nb_light_bounded(w, hx, hz, home, x + 1, y, z, false);
    }
}

/// Applies one relaxation pass; see `pass_spec`.
#[verifier::loop_isolation(false)]
fn propagate_light(world: &World, home_coords: ChunkCoords, home: &Vec<Cell>) -> (r: Vec<Cell>)
    requires
        world.wf(),
        home@.len() == CELL_COUNT,
        lights_bounded(home@),
        hc_bounded(home_coords.x as int, home_coords.z as int),
    ensures
        r@ == pass_spec(*world, home_coords.x as int, home_coords.z as int, home@),
        lights_bounded(r@),
{
    proof {
        lemma_idx_of_coords_all();
        lemma_pass_bounded(*world, home_coords.x as int, home_coords.z as int, home@);
    }
    let ghost gpass = pass_spec(*world, home_coords.x as int, home_coords.z as int, home@);
    let mut out: Vec<Cell> = Vec::with_capacity(CELL_COUNT);
    let mut x: usize = 0;
    while x < 16
        invariant
            x <= 16,
            out@.len() == x * 4096,
            forall|j: int| 0 <= j < out@.len() ==> out@[j] == gpass[j],
        decreases 16 - x,
    {
        let mut y: usize = 0;
        while y < 256
            invariant
                y <= 256,
                out@.len() == x * 4096 + y * 16,
                forall|j: int| 0 <= j < out@.len() ==> out@[j] == gpass[j],
            decreases 256 - y,
        {
            let mut z: usize = 0;
            while z < 16
                invariant
                    z <= 16,
                    out@.len() == x * 4096 + y * 16 + z,
                    forall|j: int| 0 <= j < out@.len() ==> out@[j] == gpass[j],
                decreases 16 - z,
            {
                let idx: usize = (x * 256 + y) * 16 + z;
                let c = home[idx];
                proof {
                    lemma_idx_of_coords(x as int, y as int, z as int);
                }
                let cell = if !Block::by_id(c.block_id).is_transparent() {
                    c
                } else {
                    let rs = received(world, home_coords, home, x as i32, y as i32, z as i32, true);
                    let rb = received(world, home_coords, home, x as i32, y as i32, z as i32, false);
                    Cell {
                        block_id: c.block_id,
                        sun_light: if c.sun_light >= rs {
                            c.sun_light
                        } else {
                            rs
                        },
                        block_light: if c.block_light >= rb {
                            c.block_light
                        } else {
                            rb
                        },
                    }
                };
                out.push(cell);
                z = z + 1;
            }
            y = y + 1;
        }
        x = x + 1;
    }
    proof {
        assert(out@ =~= gpass);
    }
    out
}

/// Recomputes the lighting of the loaded chunk at the given coordinates
/// from scratch; neighbors are read from the world as it stands, and only
/// the home chunk's light values change. Block identifiers and the
/// chunk's status are untouched.
pub fn recalculate_light(world: &mut World, coords: ChunkCoords)
    requires
        old(world).wf(),
        old(world).has_chunk(coords.x as int, coords.z as int),
        hc_bounded(coords.x as int, coords.z as int),
    ensures
        final(world).wf(),
        same_aux(*old(world), *final(world)),
        final(world).slots@.len() == old(world).slots@.len(),
        forall|x: int, z: int|
            final(world).has_chunk(x, z) == old(world).has_chunk(x, z),
        forall|x: int, z: int|
            (x != coords.x as int || z != coords.z as int) && old(world).has_chunk(x, z)
                ==> final(world).chunk_at(x, z) == old(world).chunk_at(x, z),
        final(world).chunk_at(coords.x as int, coords.z as int).data@ == recompute_spec(
            *old(world),
            coords.x as int,
            coords.z as int,
        ),
        final(world).chunk_at(coords.x as int, coords.z as int).status == old(world).chunk_at(
            coords.x as int,
            coords.z as int,
        ).status,
{
    proof {
        lemma_find_props(world.slots@, 0, coords.x as int, coords.z as int);
    }
    let i = world.find(coords.x, coords.z).unwrap();
    let s0 = sweep(&world.slots[i].chunk.data);
    let mut cur = s0;
    let mut k: usize = 0;
    while k < 16
        invariant
            k <= 16,
            world.wf(),
            *world == *old(world),
            hc_bounded(coords.x as int, coords.z as int),
            cur@.len() == CELL_COUNT,
            lights_bounded(cur@),
            cur@ == passes_spec(
                *world,
                coords.x as int,
                coords.z as int,
                sweep_spec(old(world).chunk_at(coords.x as int, coords.z as int).data@),
                k as nat,
            ),
        decreases 16 - k,
    {
        cur = propagate_light(world, coords, &cur);
        k = k + 1;
    }
    let ghost s_old = world.slots@;
    let slot = &mut world.slots[i];
    slot.chunk.data = cur;
    proof {
        let s_new = world.slots@;
        assert forall|x: int, z: int| true implies #[trigger] find_from(s_new, 0, x, z) == find_from(
            s_old,
            0,
            x,
            z,
        ) by {
            lemma_find_same_coords(s_old, s_new, 0, x, z);
        }
        crate::world::lemma_find_props_all(s_old);
        assert forall|x: int, z: int|
            (x != coords.x as int || z != coords.z as int) && old(world).has_chunk(x, z) implies
            world.chunk_at(x, z) == old(world).chunk_at(x, z) by {
            let j = find_slot(s_old, x, z);
            assert(0 <= j < s_old.len());
            assert(j != i as int);
            assert(s_new[j] == s_old[j]);
        }
    }
}

} // verus!
