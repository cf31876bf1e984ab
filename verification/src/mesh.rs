//! Per-block mesh generation with face culling.
//!
//! Every cell of a chunk is dispatched on its shape class: solid blocks
//! emit one quad per face whose neighbor is transparent, lit from the
//! neighbor; water emits height-lowered quads against non-water
//! neighbors and records each face for distance re-sorting; flowers and
//! torches emit small fixed quad sets lit from their own cell. All
//! positions are quantized to sixteenths of a block and packed by
//! `Vertex::new`.

use vstd::prelude::*;

use crate::blocks::{spec_block_of, Block, FaceTextures};
use crate::chunk::{
    cell_idx, in_chunk_bounds, lemma_idx_of_coords, lights_bounded, Cell, CELL_COUNT,
};
use crate::coords::ChunkCoords;
use crate::graphics::{pack_word0, pack_word1, Face, Vertex, VertexDesc};
use crate::neighborhood::{hc_bounded, nb_cell, spec_nb_cell};
use crate::world::{lemma_find_props, World};

verus! {

/// Geometry of one chunk: opaque vertices, water vertices, and the
/// re-sortable water face list.
pub struct ChunkMeshes {
    pub solid_vertices: Vec<Vertex>,
    pub water_vertices: Vec<Vertex>,
    pub water_faces: Vec<Face>,
}

/// The face order used throughout: negative z, positive z, negative y,
/// positive y, negative x, positive x. These give the offset of the
/// neighbor a face looks at.
pub open spec fn dir_dx(f: int) -> int {
    if f == 4 {
        -1
    } else if f == 5 {
        1
    } else {
        0
    }
}

pub open spec fn dir_dy(f: int) -> int {
    if f == 2 {
        -1
    } else if f == 3 {
        1
    } else {
        0
    }
}

pub open spec fn dir_dz(f: int) -> int {
    if f == 0 {
        -1
    } else if f == 1 {
        1
    } else {
        0
    }
}

/// Corner positions of a full block's six faces, in sixteenths of a
/// block; index is face * 4 + corner.
pub open spec fn solid_corner(i: int) -> (u16, u16, u16) {
    if i == 0 {
        (16, 0, 0)
    } else if i == 1 {
        (0, 0, 0)
    } else if i == 2 {
        (16, 16, 0)
    } else if i == 3 {
        (0, 16, 0)
    } else if i == 4 {
        (0, 0, 16)
    } else if i == 5 {
        (16, 0, 16)
    } else if i == 6 {
        (0, 16, 16)
    } else if i == 7 {
        (16, 16, 16)
    } else if i == 8 {
        (0, 0, 0)
    } else if i == 9 {
        (16, 0, 0)
    } else if i == 10 {
        (0, 0, 16)
    } else if i == 11 {
        (16, 0, 16)
    } else if i == 12 {
        (16, 16, 0)
    } else if i == 13 {
        (0, 16, 0)
    } else if i == 14 {
        (16, 16, 16)
    } else if i == 15 {
        (0, 16, 16)
    } else if i == 16 {
        (0, 0, 0)
    } else if i == 17 {
        (0, 0, 16)
    } else if i == 18 {
        (0, 16, 0)
    } else if i == 19 {
        (0, 16, 16)
    } else if i == 20 {
        (16, 0, 16)
    } else if i == 21 {
        (16, 0, 0)
    } else if i == 22 {
        (16, 16, 16)
    } else {
        (16, 16, 0)
    }
}

/// Corner positions of the four crossed flower quads.
pub open spec fn flower_corner(i: int) -> (u16, u16, u16) {
    if i == 0 {
        (14, 0, 2)
    } else if i == 1 {
        (2, 0, 14)
    } else if i == 2 {
        (14, 16, 2)
    } else if i == 3 {
        (2, 16, 14)
    } else if i == 4 {
        (2, 0, 2)
    } else if i == 5 {
        (14, 0, 14)
    } else if i == 6 {
        (2, 16, 2)
    } else if i == 7 {
        (14, 16, 14)
    } else if i == 8 {
        (2, 0, 14)
    } else if i == 9 {
        (14, 0, 2)
    } else if i == 10 {
        (2, 16, 14)
    } else if i == 11 {
        (14, 16, 2)
    } else if i == 12 {
        (14, 0, 14)
    } else if i == 13 {
        (2, 0, 2)
    } else if i == 14 {
        (14, 16, 14)
    } else {
        (2, 16, 2)
    }
}

/// Corner positions of the five torch quads: the top cap first, then the
/// four sides.
pub open spec fn torch_corner(i: int) -> (u16, u16, u16) {
    if i == 0 {
        (9, 9, 7)
    } else if i == 1 {
        (7, 9, 7)
    } else if i == 2 {
        (9, 9, 9)
    } else if i == 3 {
        (7, 9, 9)
    } else if i == 4 {
        (16, 0, 7)
    } else if i == 5 {
        (0, 0, 7)
    } else if i == 6 {
        (16, 16, 7)
    } else if i == 7 {
        (0, 16, 7)
    } else if i == 8 {
        (0, 0, 9)
    } else if i == 9 {
        (16, 0, 9)
    } else if i == 10 {
        (0, 16, 9)
    } else if i == 11 {
        (16, 16, 9)
    } else if i == 12 {
        (7, 0, 0)
    } else if i == 13 {
        (7, 0, 16)
    } else if i == 14 {
        (7, 16, 0)
    } else if i == 15 {
        (7, 16, 16)
    } else if i == 16 {
        (9, 0, 16)
    } else if i == 17 {
        (9, 0, 0)
    } else if i == 18 {
        (9, 16, 16)
    } else {
        (9, 16, 0)
    }
}

/// Quad models: a full block face, a height-lowered water face, a flower
/// quad, a torch quad.
pub open spec fn model_corner(model: int, i: int) -> (u16, u16, u16) {
    if model == 0 {
        solid_corner(i)
    } else if model == 1 {
        let c = solid_corner(i);
        (
            c.0,
            if c.1 == 16 {
                14
            } else {
                c.1
            },
            c.2,
        )
    } else if model == 2 {
        flower_corner(i)
    } else {
        torch_corner(i)
    }
}

/// The standard sub-texture corners of a quad, in sixteenths of a tile.
pub open spec fn tex_corner(c: int) -> (u8, u8) {
    if c == 0 {
        (0, 16)
    } else if c == 1 {
        (16, 16)
    } else if c == 2 {
        (0, 0)
    } else {
        (16, 0)
    }
}

/// The distinct sub-texture corners of the torch top cap.
pub open spec fn torch_top_tex(c: int) -> (u8, u8) {
    if c == 0 {
        (7, 9)
    } else if c == 1 {
        (9, 9)
    } else if c == 2 {
        (7, 7)
    } else {
        (9, 7)
    }
}

/// Sub-texture corners of a quad: the torch top cap has its own.
pub open spec fn model_tex(model: int, face: int, c: int) -> (u8, u8) {
    if model == 3 && face == 0 {
        torch_top_tex(c)
    } else {
        tex_corner(c)
    }
}

/// The fixed per-face ambient factor: dimmest below, brightest above.
pub open spec fn face_lighting(f: int) -> u8 {
    if f == 0 || f == 1 {
        9
    } else if f == 2 {
        6
    } else if f == 3 {
        15
    } else {
        12
    }
}

/// The unpacked vertex of corner c of a quad at block (bx, by, bz).
pub open spec fn face_desc(
    model: int,
    face: int,
    c: int,
    bx: int,
    by: int,
    bz: int,
    tex: u16,
    diff: u8,
    sun: u8,
    blk: u8,
) -> VertexDesc {
    let p = model_corner(model, face * 4 + c);
    let t = model_tex(model, face, c);
    VertexDesc {
        x: (bx * 16 + p.0) as u16,
        y: (by * 16 + p.1) as u16,
        z: (bz * 16 + p.2) as u16,
        texture_id: tex,
        u: t.0,
        v: t.1,
        diffused_light: diff,
        sun_light: sun,
        block_light: blk,
    }
}

/// A vertex as packed into its two words.
pub open spec fn packed(d: VertexDesc) -> Vertex {
    Vertex { w0: pack_word0(d) as u32, w1: pack_word1(d) as u32 }
}

/// The four packed vertices of one quad.
pub open spec fn face_verts(
    model: int,
    face: int,
    bx: int,
    by: int,
    bz: int,
    tex: u16,
    diff: u8,
    sun: u8,
    blk: u8,
) -> Seq<Vertex> {
    Seq::new(4, |c: int| packed(face_desc(model, face, c, bx, by, bz, tex, diff, sun, blk)))
}

/// Number of quads of each model.
pub open spec fn model_faces(model: int) -> int {
    if model == 2 {
        4
    } else if model == 3 {
        5
    } else {
        6
    }
}

/// Corner position lookup; see `model_corner`.
fn model_corner_at(model: usize, i: usize) -> (r: (u16, u16, u16))
    requires
        model < 4,
        i < 4 * model_faces(model as int),
    ensures
        r == model_corner(model as int, i as int),
{
    if model == 2 {
        if i == 0 {
            (14, 0, 2)
        } else if i == 1 {
            (2, 0, 14)
        } else if i == 2 {
            (14, 16, 2)
        } else if i == 3 {
            (2, 16, 14)
        } else if i == 4 {
            (2, 0, 2)
        } else if i == 5 {
            (14, 0, 14)
        } else if i == 6 {
            (2, 16, 2)
        } else if i == 7 {
            (14, 16, 14)
        } else if i == 8 {
            (2, 0, 14)
        } else if i == 9 {
            (14, 0, 2)
        } else if i == 10 {
            (2, 16, 14)
        } else if i == 11 {
            (14, 16, 2)
        } else if i == 12 {
            (14, 0, 14)
        } else if i == 13 {
            (2, 0, 2)
        } else if i == 14 {
            (14, 16, 14)
        } else {
            (2, 16, 2)
        }
    } else if model == 3 {
        if i == 0 {
            (9, 9, 7)
        } else if i == 1 {
            (7, 9, 7)
        } else if i == 2 {
            (9, 9, 9)
        } else if i == 3 {
            (7, 9, 9)
        } else if i == 4 {
            (16, 0, 7)
        } else if i == 5 {
            (0, 0, 7)
        } else if i == 6 {
            (16, 16, 7)
        } else if i == 7 {
            (0, 16, 7)
        } else if i == 8 {
            (0, 0, 9)
        } else if i == 9 {
            (16, 0, 9)
        } else if i == 10 {
            (0, 16, 9)
        } else if i == 11 {
            (16, 16, 9)
        } else if i == 12 {
            (7, 0, 0)
        } else if i == 13 {
            (7, 0, 16)
        } else if i == 14 {
            (7, 16, 0)
        } else if i == 15 {
            (7, 16, 16)
        } else if i == 16 {
            (9, 0, 16)
        } else if i == 17 {
            (9, 0, 0)
        } else if i == 18 {
            (9, 16, 16)
        } else {
            (9, 16, 0)
        }
    } else {
        let c = if i == 0 {
            (16u16, 0u16, 0u16)
        } else if i == 1 {
            (0, 0, 0)
        } else if i == 2 {
            (16, 16, 0)
        } else if i == 3 {
            (0, 16, 0)
        } else if i == 4 {
            (0, 0, 16)
        } else if i == 5 {
            (16, 0, 16)
        } else if i == 6 {
            (0, 16, 16)
        } else if i == 7 {
            (16, 16, 16)
        } else if i == 8 {
            (0, 0, 0)
        } else if i == 9 {
            (16, 0, 0)
        } else if i == 10 {
            (0, 0, 16)
        } else if i == 11 {
            (16, 0, 16)
        } else if i == 12 {
            (16, 16, 0)
        } else if i == 13 {
            (0, 16, 0)
        } else if i == 14 {
            (16, 16, 16)
        } else if i == 15 {
            (0, 16, 16)
        } else if i == 16 {
            (0, 0, 0)
        } else if i == 17 {
            (0, 0, 16)
        } else if i == 18 {
            (0, 16, 0)
        } else if i == 19 {
            (0, 16, 16)
        } else if i == 20 {
            (16, 0, 16)
        } else if i == 21 {
            (16, 0, 0)
        } else if i == 22 {
            (16, 16, 16)
        } else {
            (16, 16, 0)
        };
        if model == 1 {
            (
                c.0,
                if c.1 == 16 {
                    14
                } else {
                    c.1
                },
                c.2,
            )
        } else {
            c
        }
    }
}

/// Sub-texture corner lookup; see `model_tex`.
fn model_tex_at(model: usize, face: usize, c: usize) -> (r: (u8, u8))
    requires
        c < 4,
    ensures
        r == model_tex(model as int, face as int, c as int),
{
    if model == 3 && face == 0 {
        if c == 0 {
            (7, 9)
        } else if c == 1 {
            (9, 9)
        } else if c == 2 {
            (7, 7)
        } else {
            (9, 7)
        }
    } else {
        if c == 0 {
            (0, 16)
        } else if c == 1 {
            (16, 16)
        } else if c == 2 {
            (0, 0)
        } else {
            (16, 0)
        }
    }
}

/// Ambient factor lookup; see `face_lighting`.
fn face_lighting_at(f: usize) -> (r: u8)
    ensures
        r == face_lighting(f as int),
{
    if f == 0 || f == 1 {
        9
    } else if f == 2 {
        6
    } else if f == 3 {
        15
    } else {
        12
    }
}

/// Appends the four vertices of one quad; see `face_verts`.
fn emit_face_vertices(
    out: &mut Vec<Vertex>,
    model: usize,
    face: usize,
    bx: usize,
    by: usize,
    bz: usize,
    tex: u16,
    diff: u8,
    sun: u8,
    blk: u8,
)
    requires
        model < 4,
        face < model_faces(model as int),
        bx < 16,
        by < 256,
        bz < 16,
        tex <= 1023,
        diff <= 15,
        sun <= 15,
        blk <= 15,
    ensures
        final(out)@ == old(out)@ + face_verts(
            model as int,
            face as int,
            bx as int,
            by as int,
            bz as int,
            tex,
            diff,
            sun,
            blk,
        ),
{
    let ghost target = face_verts(
        model as int,
        face as int,
        bx as int,
        by as int,
        bz as int,
        tex,
        diff,
        sun,
        blk,
    );
    let mut c: usize = 0;
    while c < 4
        invariant
            c <= 4,
            model < 4,
            face < model_faces(model as int),
            bx < 16,
            by < 256,
            bz < 16,
            tex <= 1023,
            diff <= 15,
            sun <= 15,
            blk <= 15,
            out@.len() == old(out)@.len() + c,
            forall|j: int| 0 <= j < old(out)@.len() ==> out@[j] == old(out)@[j],
            forall|j: int| 0 <= j < c ==> out@[old(out)@.len() + j] == target[j],
            target == face_verts(
                model as int,
                face as int,
                bx as int,
                by as int,
                bz as int,
                tex,
                diff,
                sun,
                blk,
            ),
        decreases 4 - c,
    {
        let p = model_corner_at(model, face * 4 + c);
        let t = model_tex_at(model, face, c);
        let desc = VertexDesc {
            x: (bx as u16) * 16 + p.0,
            y: (by as u16) * 16 + p.1,
            z: (bz as u16) * 16 + p.2,
            texture_id: tex,
            u: t.0,
            v: t.1,
            diffused_light: diff,
            sun_light: sun,
            block_light: blk,
        };
        let v = Vertex::new(desc);
        proof {
            assert(desc == face_desc(
                model as int,
                face as int,
                c as int,
                bx as int,
                by as int,
                bz as int,
                tex,
                diff,
                sun,
                blk,
            ));
            assert(v == target[c as int]);
        }
        out.push(v);
        c = c + 1;
    }
    proof {
        assert(out@ =~= old(out)@ + target);
    }
}

/// The neighbor cell a face looks at, through the neighborhood.
pub open spec fn face_nb(
    w: World,
    hx: int,
    hz: int,
    home: Seq<Cell>,
    x: int,
    y: int,
    z: int,
    f: int,
) -> Option<Cell> {
    spec_nb_cell(w, hx, hz, home, x + dir_dx(f), y + dir_dy(f), z + dir_dz(f))
}

/// Sunlight sampled from an optional neighbor: full above an unknown
/// cell.
pub open spec fn nb_sun(c: Option<Cell>) -> u8 {
    match c {
        Option::Some(c) => c.sun_light,
        Option::None => 15,
    }
}

/// Block light sampled from an optional neighbor: none for an unknown
/// cell.
pub open spec fn nb_blk(c: Option<Cell>) -> u8 {
    match c {
        Option::Some(c) => c.block_light,
        Option::None => 0,
    }
}

/// A solid face is drawn exactly when its neighbor is a known
/// transparent cell.
pub open spec fn solid_emit(
    w: World,
    hx: int,
    hz: int,
    home: Seq<Cell>,
    x: int,
    y: int,
    z: int,
    f: int,
) -> bool {
    match face_nb(w, hx, hz, home, x, y, z, f) {
        Option::Some(c) => crate::blocks::id_transparent(c.block_id),
        Option::None => false,
    }
}

/// The solid quads of the first f faces of one solid cell, in face
/// order, lit from each face's neighbor.
pub open spec fn solid_upto(
    w: World,
    hx: int,
    hz: int,
    home: Seq<Cell>,
    x: int,
    y: int,
    z: int,
    t: FaceTextures,
    f: int,
) -> Seq<Vertex>
    decreases f,
{
    if f <= 0 {
        Seq::empty()
    } else {
        solid_upto(w, hx, hz, home, x, y, z, t, f - 1) + (if solid_emit(
            w,
            hx,
            hz,
            home,
            x,
            y,
            z,
            f - 1,
        ) {
            face_verts(
                0,
                f - 1,
                x,
                y,
                z,
                t.spec_face(f - 1),
                face_lighting(f - 1),
                nb_sun(face_nb(w, hx, hz, home, x, y, z, f - 1)),
                nb_blk(face_nb(w, hx, hz, home, x, y, z, f - 1)),
            )
        } else {
            Seq::empty()
        })
    }
}

/// Water uses the full-height block model under more water, and the
/// lowered model under anything else.
pub open spec fn water_model(
    w: World,
    hx: int,
    hz: int,
    home: Seq<Cell>,
    x: int,
    y: int,
    z: int,
) -> int {
    match face_nb(w, hx, hz, home, x, y, z, 3) {
        Option::Some(c) => if spec_block_of(c.block_id) is Fluid {
            0
        } else {
            1
        },
        Option::None => 1,
    }
}

/// A water face is drawn against a known neighbor that is neither water
/// nor opaque; the top face is instead suppressed exactly under more
/// water.
pub open spec fn water_emit(
    w: World,
    hx: int,
    hz: int,
    home: Seq<Cell>,
    x: int,
    y: int,
    z: int,
    f: int,
) -> bool {
    match face_nb(w, hx, hz, home, x, y, z, f) {
        Option::Some(c) => if f == 3 {
            water_model(w, hx, hz, home, x, y, z) == 1
        } else {
            !(spec_block_of(c.block_id) is Fluid) && crate::blocks::id_transparent(c.block_id)
        },
        Option::None => false,
    }
}

/// The cell a water face takes its light from: the water cell itself for
/// the top face, the neighbor otherwise.
pub open spec fn water_light_cell(
    w: World,
    hx: int,
    hz: int,
    home: Seq<Cell>,
    x: int,
    y: int,
    z: int,
    f: int,
) -> Option<Cell> {
    if f == 3 {
        Option::Some(home[cell_idx(x, y, z)])
    } else {
        face_nb(w, hx, hz, home, x, y, z, f)
    }
}

/// The water quads of the first f faces of one water cell.
pub open spec fn water_upto(
    w: World,
    hx: int,
    hz: int,
    home: Seq<Cell>,
    x: int,
    y: int,
    z: int,
    tex: u16,
    f: int,
) -> Seq<Vertex>
    decreases f,
{
    if f <= 0 {
        Seq::empty()
    } else {
        water_upto(w, hx, hz, home, x, y, z, tex, f - 1) + (if water_emit(
            w,
            hx,
            hz,
            home,
            x,
            y,
            z,
            f - 1,
        ) {
            face_verts(
                water_model(w, hx, hz, home, x, y, z),
                f - 1,
                x,
                y,
                z,
                tex,
                face_lighting(f - 1),
                nb_sun(water_light_cell(w, hx, hz, home, x, y, z, f - 1)),
                nb_blk(water_light_cell(w, hx, hz, home, x, y, z, f - 1)),
            )
        } else {
            Seq::empty()
        })
    }
}

/// A quad's center along one axis, in sixty-fourths of a block: the sum
/// of the four corner positions plus the block offset.
pub open spec fn center_sum(model: int, face: int, pick: int) -> int {
    let c0 = model_corner(model, face * 4);
    let c1 = model_corner(model, face * 4 + 1);
    let c2 = model_corner(model, face * 4 + 2);
    let c3 = model_corner(model, face * 4 + 3);
    if pick == 0 {
        c0.0 + c1.0 + c2.0 + c3.0
    } else if pick == 1 {
        c0.1 + c1.1 + c2.1 + c3.1
    } else {
        c0.2 + c1.2 + c2.2 + c3.2
    }
}

/// The recorded water faces of the first f faces of one water cell,
/// with `base` the number of water vertices already emitted before the
/// cell.
pub open spec fn water_faces_upto(
    w: World,
    hx: int,
    hz: int,
    home: Seq<Cell>,
    x: int,
    y: int,
    z: int,
    base: int,
    tex: u16,
    f: int,
) -> Seq<Face>
    decreases f,
{
    if f <= 0 {
        Seq::empty()
    } else {
        water_faces_upto(w, hx, hz, home, x, y, z, base, tex, f - 1) + (if water_emit(
            w,
            hx,
            hz,
            home,
            x,
            y,
            z,
            f - 1,
        ) {
            let m = water_model(w, hx, hz, home, x, y, z);
            seq![
                Face {
                    base_index: (base + water_upto(w, hx, hz, home, x, y, z, tex, f - 1).len()) as u32,
                    center_x: (x * 64 + center_sum(m, f - 1, 0)) as i64,
                    center_y: (y * 64 + center_sum(m, f - 1, 1)) as i64,
                    center_z: (z * 64 + center_sum(m, f - 1, 2)) as i64,
                    distance: 0,
                },
            ]
        } else {
            Seq::empty()
        })
    }
}

/// The quads of one flower cell: four crossed quads, always drawn, lit
/// from the cell itself.
pub open spec fn flower_cell_verts(home: Seq<Cell>, x: int, y: int, z: int, tex: u16) -> Seq<
    Vertex,
> {
    let c = home[cell_idx(x, y, z)];
    face_verts(2, 0, x, y, z, tex, 15, c.sun_light, c.block_light) + face_verts(
        2,
        1,
        x,
        y,
        z,
        tex,
        15,
        c.sun_light,
        c.block_light,
    ) + face_verts(2, 2, x, y, z, tex, 15, c.sun_light, c.block_light) + face_verts(
        2,
        3,
        x,
        y,
        z,
        tex,
        15,
        c.sun_light,
        c.block_light,
    )
}

/// The quads of one torch cell: the top cap and four sides, always
/// drawn, lit from the cell itself.
pub open spec fn torch_cell_verts(home: Seq<Cell>, x: int, y: int, z: int, tex: u16) -> Seq<
    Vertex,
> {
    let c = home[cell_idx(x, y, z)];
    face_verts(3, 0, x, y, z, tex, 15, c.sun_light, c.block_light) + face_verts(
        3,
        1,
        x,
        y,
        z,
        tex,
        15,
        c.sun_light,
        c.block_light,
    ) + face_verts(3, 2, x, y, z, tex, 15, c.sun_light, c.block_light) + face_verts(
        3,
        3,
        x,
        y,
        z,
        tex,
        15,
        c.sun_light,
        c.block_light,
    ) + face_verts(3, 4, x, y, z, tex, 15, c.sun_light, c.block_light)
}

/// What one cell contributes to the opaque vertex buffer.
pub open spec fn cell_solid_verts(
    w: World,
    hx: int,
    hz: int,
    home: Seq<Cell>,
    x: int,
    y: int,
    z: int,
) -> Seq<Vertex> {
    match spec_block_of(home[cell_idx(x, y, z)].block_id) {
        Block::Empty => Seq::empty(),
        Block::Solid { texture_ids } => solid_upto(w, hx, hz, home, x, y, z, texture_ids, 6),
        Block::Fluid { .. } => Seq::empty(),
        Block::Flower { texture_id } => flower_cell_verts(home, x, y, z, texture_id),
        Block::Torch { texture_id } => torch_cell_verts(home, x, y, z, texture_id),
    }
}

/// What one cell contributes to the water vertex buffer.
pub open spec fn cell_water_verts(
    w: World,
    hx: int,
    hz: int,
    home: Seq<Cell>,
    x: int,
    y: int,
    z: int,
) -> Seq<Vertex> {
    match spec_block_of(home[cell_idx(x, y, z)].block_id) {
        Block::Fluid { texture_id } => water_upto(w, hx, hz, home, x, y, z, texture_id, 6),
        _ => Seq::empty(),
    }
}

/// What one cell contributes to the water face list.
pub open spec fn cell_water_faces(
    w: World,
    hx: int,
    hz: int,
    home: Seq<Cell>,
    x: int,
    y: int,
    z: int,
    base: int,
) -> Seq<Face> {
    match spec_block_of(home[cell_idx(x, y, z)].block_id) {
        Block::Fluid { texture_id } => water_faces_upto(w, hx, hz, home, x, y, z, base, texture_id, 6),
        _ => Seq::empty(),
    }
}

/// The opaque vertices of the first k cells, in cell order.
pub open spec fn mesh_solid_upto(w: World, hx: int, hz: int, home: Seq<Cell>, k: int) -> Seq<
    Vertex,
>
    decreases k,
{
    if k <= 0 {
        Seq::empty()
    } else {
        mesh_solid_upto(w, hx, hz, home, k - 1) + cell_solid_verts(
            w,
            hx,
            hz,
            home,
            crate::chunk::ix(k - 1),
            crate::chunk::iy(k - 1),
            crate::chunk::iz(k - 1),
        )
    }
}

/// The water vertices of the first k cells, in cell order.
pub open spec fn mesh_water_upto(w: World, hx: int, hz: int, home: Seq<Cell>, k: int) -> Seq<
    Vertex,
>
    decreases k,
{
    if k <= 0 {
        Seq::empty()
    } else {
        mesh_water_upto(w, hx, hz, home, k - 1) + cell_water_verts(
            w,
            hx,
            hz,
            home,
            crate::chunk::ix(k - 1),
            crate::chunk::iy(k - 1),
            crate::chunk::iz(k - 1),
        )
    }
}

/// The water faces of the first k cells, each knowing where its four
/// vertices start.
pub open spec fn mesh_faces_upto(w: World, hx: int, hz: int, home: Seq<Cell>, k: int) -> Seq<Face>
    decreases k,
{
    if k <= 0 {
        Seq::empty()
    } else {
        mesh_faces_upto(w, hx, hz, home, k - 1) + cell_water_faces(
            w,
            hx,
            hz,
            home,
            crate::chunk::ix(k - 1),
            crate::chunk::iy(k - 1),
            crate::chunk::iz(k - 1),
            mesh_water_upto(w, hx, hz, home, k - 1).len() as int,
        )
    }
}

/// Per-cell contributions are small: at most one quad per face.
proof fn lemma_cell_mesh_lens(
    w: World,
    hx: int,
    hz: int,
    home: Seq<Cell>,
    x: int,
    y: int,
    z: int,
    t: FaceTextures,
    tex: u16,
    base: int,
    f: int,
)
    requires
        f >= 0,
    ensures
        solid_upto(w, hx, hz, home, x, y, z, t, f).len() <= 4 * f,
        water_upto(w, hx, hz, home, x, y, z, tex, f).len() <= 4 * f,
        water_faces_upto(w, hx, hz, home, x, y, z, base, tex, f).len() <= f,
        solid_upto(w, hx, hz, home, x, y, z, t, f).len() % 4 == 0,
        water_upto(w, hx, hz, home, x, y, z, tex, f).len() % 4 == 0,
    decreases f,
{
    if f > 0 {
        lemma_cell_mesh_lens(w, hx, hz, home, x, y, z, t, tex, base, f - 1);
    }
}

/// A neighborhood lookup only ever shows light values in range.
proof fn lemma_nb_cell_bounded(w: World, hx: int, hz: int, home: Seq<Cell>, x: int, y: int, z: int)
    requires
        w.wf(),
        home.len() == CELL_COUNT,
        lights_bounded(home),
    ensures
        match spec_nb_cell(w, hx, hz, home, x, y, z) {
            Option::Some(c) => c.sun_light <= 15 && c.block_light <= 15,
            Option::None => true,
        },
{
    if 0 <= y < 256 && in_chunk_bounds(x, y, z) {
        lemma_idx_of_coords(x, y, z);
    } else if 0 <= y < 256 {
        let cx = hx + (x / 16);
        let cz = hz + (z / 16);
        if w.has_chunk(cx, cz) {
            lemma_find_props(w.slots@, 0, cx, cz);
            lemma_idx_of_coords(x % 16, y, z % 16);
        }
    }
}

/// Emits the drawn faces of one solid cell, culling each face against
/// its neighbor; see `solid_upto`.
#[verifier::loop_isolation(false)]
fn emit_solid_block(
    world: &World,
    home_coords: ChunkCoords,
    home: &Vec<Cell>,
    x: usize,
    y: usize,
    z: usize,
    t: FaceTextures,
    meshes: &mut ChunkMeshes,
)
    requires
        world.wf(),
        home@.len() == CELL_COUNT,
        lights_bounded(home@),
        hc_bounded(home_coords.x as int, home_coords.z as int),
        in_chunk_bounds(x as int, y as int, z as int),
        forall|i: int| 0 <= i < 6 ==> t.spec_face(i) <= 1023,
    ensures
        final(meshes).solid_vertices@ == old(meshes).solid_vertices@ + solid_upto(
            *world,
            home_coords.x as int,
            home_coords.z as int,
            home@,
            x as int,
            y as int,
            z as int,
            t,
            6,
        ),
        final(meshes).water_vertices == old(meshes).water_vertices,
        final(meshes).water_faces == old(meshes).water_faces,
{
    let mut f: usize = 0;
    while f < 6
        invariant
            f <= 6,
            meshes.solid_vertices@ == old(meshes).solid_vertices@ + solid_upto(
                *world,
                home_coords.x as int,
                home_coords.z as int,
                home@,
                x as int,
                y as int,
                z as int,
                t,
                f as int,
            ),
            meshes.water_vertices == old(meshes).water_vertices,
            meshes.water_faces == old(meshes).water_faces,
        decreases 6 - f,
    {
        let dx: i32 = if f == 4 {
            -1
        } else if f == 5 {
            1
        } else {
            0
        };
        let dy: i32 = if f == 2 {
            -1
        } else if f == 3 {
            1
        } else {
            0
        };
        let dz: i32 = if f == 0 {
            -1
        } else if f == 1 {
            1
        } else {
            0
        };
        let nc = nb_cell(world, home_coords, home, x as i32 + dx, y as i32 + dy, z as i32 + dz);
        proof {
            lemma_nb_cell_bounded(
                *world,
                home_coords.x as int,
                home_coords.z as int,
                home@,
                x as int + dx as int,
                y as int + dy as int,
                z as int + dz as int,
            );
        }
        match nc {
            Some(c) => {
                if Block::by_id(c.block_id).is_transparent() {
                    emit_face_vertices(
                        &mut meshes.solid_vertices,
                        0,
                        f,
                        x,
                        y,
                        z,
                        t.face(f),
                        face_lighting_at(f),
                        c.sun_light,
                        c.block_light,
                    );
                }
            },
            None => {},
        }
        f = f + 1;
    }
}

/// Emits the drawn faces of one water cell and records each in the face
/// list; see `water_upto` and `water_faces_upto`.
#[verifier::loop_isolation(false)]
#[verifier::rlimit(100)]
fn emit_water_block(
    world: &World,
    home_coords: ChunkCoords,
    home: &Vec<Cell>,
    x: usize,
    y: usize,
    z: usize,
    tex: u16,
    meshes: &mut ChunkMeshes,
)
    requires
        world.wf(),
        home@.len() == CELL_COUNT,
        lights_bounded(home@),
        hc_bounded(home_coords.x as int, home_coords.z as int),
        in_chunk_bounds(x as int, y as int, z as int),
        tex <= 1023,
        old(meshes).water_vertices@.len() <= 90000000,
    ensures
        final(meshes).water_vertices@ == old(meshes).water_vertices@ + water_upto(
            *world,
            home_coords.x as int,
            home_coords.z as int,
            home@,
            x as int,
            y as int,
            z as int,
            tex,
            6,
        ),
        final(meshes).water_faces@ == old(meshes).water_faces@ + water_faces_upto(
            *world,
            home_coords.x as int,
            home_coords.z as int,
            home@,
            x as int,
            y as int,
            z as int,
            old(meshes).water_vertices@.len() as int,
            tex,
            6,
        ),
        final(meshes).solid_vertices == old(meshes).solid_vertices,
        forall|j: int|
            old(meshes).water_faces@.len() <= j < final(meshes).water_faces@.len() ==> {
                &&& 0 <= (#[trigger] final(meshes).water_faces@[j]).center_x <= 16448
                &&& 0 <= final(meshes).water_faces@[j].center_y <= 16448
                &&& 0 <= final(meshes).water_faces@[j].center_z <= 16448
                &&& final(meshes).water_faces@[j].base_index <= 90000024
            },
{
    let ghost hx = home_coords.x as int;
    let ghost hz = home_coords.z as int;
    let ghost base0 = old(meshes).water_vertices@.len() as int;
    let top = nb_cell(world, home_coords, home, x as i32, y as i32 + 1, z as i32);
    let model: usize = match top {
        Some(c) => {
            if matches!(Block::by_id(c.block_id), Block::Fluid { .. }) {
                0
            } else {
                1
            }
        },
        None => 1,
    };
    proof {
        assert(model as int == water_model(*world, hx, hz, home@, x as int, y as int, z as int));
    }
    let mut f: usize = 0;
    while f < 6
        invariant
            f <= 6,
            model as int == water_model(*world, hx, hz, home@, x as int, y as int, z as int),
            model < 2,
            meshes.water_vertices@ == old(meshes).water_vertices@ + water_upto(
                *world,
                hx,
                hz,
                home@,
                x as int,
                y as int,
                z as int,
                tex,
                f as int,
            ),
            meshes.water_faces@ == old(meshes).water_faces@ + water_faces_upto(
                *world,
                hx,
                hz,
                home@,
                x as int,
                y as int,
                z as int,
                base0,
                tex,
                f as int,
            ),
            meshes.solid_vertices == old(meshes).solid_vertices,
            forall|j: int|
                old(meshes).water_faces@.len() <= j < meshes.water_faces@.len() ==> {
                    &&& 0 <= (#[trigger] meshes.water_faces@[j]).center_x <= 16448
                    &&& 0 <= meshes.water_faces@[j].center_y <= 16448
                    &&& 0 <= meshes.water_faces@[j].center_z <= 16448
                    &&& meshes.water_faces@[j].base_index <= 90000024
                },
        decreases 6 - f,
    {
        let dx: i32 = if f == 4 {
            -1
        } else if f == 5 {
            1
        } else {
            0
        };
        let dy: i32 = if f == 2 {
            -1
        } else if f == 3 {
            1
        } else {
            0
        };
        let dz: i32 = if f == 0 {
            -1
        } else if f == 1 {
            1
        } else {
            0
        };
        let nc = nb_cell(world, home_coords, home, x as i32 + dx, y as i32 + dy, z as i32 + dz);
        proof {
            lemma_nb_cell_bounded(
                *world,
                hx,
                hz,
                home@,
                x as int + dx as int,
                y as int + dy as int,
                z as int + dz as int,
            );
            lemma_cell_mesh_lens(
                *world,
                hx,
                hz,
                home@,
                x as int,
                y as int,
                z as int,
                t_any(),
                tex,
                base0,
                f as int,
            );
        }
        let emit: bool = match &nc {
            Some(c) => {
                if f == 3 {
                    model == 1
                } else {
                    let b = Block::by_id(c.block_id);
                    !(matches!(b, Block::Fluid { .. })) && b.is_transparent()
                }
            },
            None => false,
        };
        if emit {
            let (sun, blk) = if f == 3 {
                let idx: usize = (x * 256 + y) * 16 + z;
                let own = home[idx];
                proof {
                    lemma_idx_of_coords(x as int, y as int, z as int);
                }
                (own.sun_light, own.block_light)
            } else {
                let c = nc.unwrap();
                (c.sun_light, c.block_light)
            };
            let base: u32 = meshes.water_vertices.len() as u32;
            let c0 = model_corner_at(model, f * 4);
            let c1 = model_corner_at(model, f * 4 + 1);
            let c2 = model_corner_at(model, f * 4 + 2);
            let c3 = model_corner_at(model, f * 4 + 3);
            let cx: i64 = (x as i64) * 64 + (c0.0 as i64) + (c1.0 as i64) + (c2.0 as i64) + (
            c3.0 as i64);
            let cy: i64 = (y as i64) * 64 + (c0.1 as i64) + (c1.1 as i64) + (c2.1 as i64) + (
            c3.1 as i64);
            let cz: i64 = (z as i64) * 64 + (c0.2 as i64) + (c1.2 as i64) + (c2.2 as i64) + (
            c3.2 as i64);
            meshes.water_faces.push(
                Face { base_index: base, center_x: cx, center_y: cy, center_z: cz, distance: 0 },
            );
            emit_face_vertices(
                &mut meshes.water_vertices,
                model,
                f,
                x,
                y,
                z,
                tex,
                face_lighting_at(f),
                sun,
                blk,
            );
        }
        f = f + 1;
    }
}

/// An arbitrary texture set, used only to instantiate a lemma.
spec fn t_any() -> FaceTextures {
    FaceTextures { neg_z: 0, pos_z: 0, neg_y: 0, pos_y: 0, neg_x: 0, pos_x: 0 }
}

/// Emits the four crossed quads of one flower cell; see
/// `flower_cell_verts`.
fn emit_flower_block(
    home: &Vec<Cell>,
    x: usize,
    y: usize,
    z: usize,
    tex: u16,
    meshes: &mut ChunkMeshes,
)
    requires
        home@.len() == CELL_COUNT,
        lights_bounded(home@),
        in_chunk_bounds(x as int, y as int, z as int),
        tex <= 1023,
    ensures
        final(meshes).solid_vertices@ == old(meshes).solid_vertices@ + flower_cell_verts(
            home@,
            x as int,
            y as int,
            z as int,
            tex,
        ),
        final(meshes).water_vertices == old(meshes).water_vertices,
        final(meshes).water_faces == old(meshes).water_faces,
{
    let idx: usize = (x * 256 + y) * 16 + z;
    proof {
        lemma_idx_of_coords(x as int, y as int, z as int);
    }
    let c = home[idx];
    emit_face_vertices(&mut meshes.solid_vertices, 2, 0, x, y, z, tex, 15, c.sun_light, c.block_light);
    emit_face_vertices(&mut meshes.solid_vertices, 2, 1, x, y, z, tex, 15, c.sun_light, c.block_light);
    emit_face_vertices(&mut meshes.solid_vertices, 2, 2, x, y, z, tex, 15, c.sun_light, c.block_light);
    emit_face_vertices(&mut meshes.solid_vertices, 2, 3, x, y, z, tex, 15, c.sun_light, c.block_light);
    proof {
        assert(meshes.solid_vertices@ =~= old(meshes).solid_vertices@ + flower_cell_verts(
            home@,
            x as int,
            y as int,
            z as int,
            tex,
        ));
    }
}

/// Emits the top cap and four sides of one torch cell; see
/// `torch_cell_verts`.
fn emit_torch_block(
    home: &Vec<Cell>,
    x: usize,
    y: usize,
    z: usize,
    tex: u16,
    meshes: &mut ChunkMeshes,
)
    requires
        home@.len() == CELL_COUNT,
        lights_bounded(home@),
        in_chunk_bounds(x as int, y as int, z as int),
        tex <= 1023,
    ensures
        final(meshes).solid_vertices@ == old(meshes).solid_vertices@ + torch_cell_verts(
            home@,
            x as int,
            y as int,
            z as int,
            tex,
        ),
        final(meshes).water_vertices == old(meshes).water_vertices,
        final(meshes).water_faces == old(meshes).water_faces,
{
    let idx: usize = (x * 256 + y) * 16 + z;
    proof {
        lemma_idx_of_coords(x as int, y as int, z as int);
    }
    let c = home[idx];
    emit_face_vertices(&mut meshes.solid_vertices, 3, 0, x, y, z, tex, 15, c.sun_light, c.block_light);
    emit_face_vertices(&mut meshes.solid_vertices, 3, 1, x, y, z, tex, 15, c.sun_light, c.block_light);
    emit_face_vertices(&mut meshes.solid_vertices, 3, 2, x, y, z, tex, 15, c.sun_light, c.block_light);
    emit_face_vertices(&mut meshes.solid_vertices, 3, 3, x, y, z, tex, 15, c.sun_light, c.block_light);
    emit_face_vertices(&mut meshes.solid_vertices, 3, 4, x, y, z, tex, 15, c.sun_light, c.block_light);
    proof {
        assert(meshes.solid_vertices@ =~= old(meshes).solid_vertices@ + torch_cell_verts(
            home@,
            x as int,
            y as int,
            z as int,
            tex,
        ));
    }
}

impl ChunkMeshes {
    /// Generates the meshes of the loaded chunk at the given
    /// coordinates, dispatching every cell on its shape class. The
    /// result is exactly the fold of every cell's contribution in cell
    /// order, and the recorded water faces point at their vertices and
    /// carry in-chunk centers.
    #[verifier::loop_isolation(false)]
    #[verifier::rlimit(100)]
    pub fn generate(world: &World, coords: ChunkCoords) -> (r: ChunkMeshes)
        requires
            world.wf(),
            world.has_chunk(coords.x as int, coords.z as int),
            hc_bounded(coords.x as int, coords.z as int),
        ensures
            ({
                let home = world.chunk_at(coords.x as int, coords.z as int).data@;
                let hx = coords.x as int;
                let hz = coords.z as int;
                &&& r.solid_vertices@ == mesh_solid_upto(*world, hx, hz, home, CELL_COUNT as int)
                &&& r.water_vertices@ == mesh_water_upto(*world, hx, hz, home, CELL_COUNT as int)
                &&& r.water_faces@ == mesh_faces_upto(*world, hx, hz, home, CELL_COUNT as int)
                &&& r.solid_vertices@.len() % 4 == 0
                &&& r.water_faces@.len() <= 100000000
                &&& forall|j: int|
                    0 <= j < r.water_faces@.len() ==> {
                        &&& 0 <= (#[trigger] r.water_faces@[j]).center_x <= 16448
                        &&& 0 <= r.water_faces@[j].center_y <= 16448
                        &&& 0 <= r.water_faces@[j].center_z <= 16448
                        &&& r.water_faces@[j].base_index <= 90000024
                    }
            }),
    {
        proof {
            lemma_find_props(world.slots@, 0, coords.x as int, coords.z as int);
            crate::chunk::lemma_idx_of_coords_all();
        }
        let ghost hx = coords.x as int;
        let ghost hz = coords.z as int;
        let i = world.find(coords.x, coords.z).unwrap();
        let home = &world.slots[i].chunk.data;
        let mut meshes = ChunkMeshes {
            solid_vertices: Vec::new(),
            water_vertices: Vec::new(),
            water_faces: Vec::new(),
        };
        let mut x: usize = 0;
        while x < 16
            invariant
                x <= 16,
                meshes.solid_vertices@ == mesh_solid_upto(*world, hx, hz, home@, x as int * 4096),
                meshes.water_vertices@ == mesh_water_upto(*world, hx, hz, home@, x as int * 4096),
                meshes.water_faces@ == mesh_faces_upto(*world, hx, hz, home@, x as int * 4096),
                meshes.solid_vertices@.len() % 4 == 0,
                meshes.water_vertices@.len() <= 24 * (x as int * 4096),
                meshes.water_faces@.len() <= 6 * (x as int * 4096),
                forall|j: int|
                    0 <= j < meshes.water_faces@.len() ==> {
                        &&& 0 <= (#[trigger] meshes.water_faces@[j]).center_x <= 16448
                        &&& 0 <= meshes.water_faces@[j].center_y <= 16448
                        &&& 0 <= meshes.water_faces@[j].center_z <= 16448
                        &&& meshes.water_faces@[j].base_index <= 90000024
                    },
            decreases 16 - x,
        {
            let mut y: usize = 0;
            while y < 256
                invariant
                    y <= 256,
                    meshes.solid_vertices@ == mesh_solid_upto(
                        *world,
                        hx,
                        hz,
                        home@,
                        x as int * 4096 + y as int * 16,
                    ),
                    meshes.water_vertices@ == mesh_water_upto(
                        *world,
                        hx,
                        hz,
                        home@,
                        x as int * 4096 + y as int * 16,
                    ),
                    meshes.water_faces@ == mesh_faces_upto(
                        *world,
                        hx,
                        hz,
                        home@,
                        x as int * 4096 + y as int * 16,
                    ),
                    meshes.solid_vertices@.len() % 4 == 0,
                    meshes.water_vertices@.len() <= 24 * (x as int * 4096 + y as int * 16),
                    meshes.water_faces@.len() <= 6 * (x as int * 4096 + y as int * 16),
                    forall|j: int|
                        0 <= j < meshes.water_faces@.len() ==> {
                            &&& 0 <= (#[trigger] meshes.water_faces@[j]).center_x <= 16448
                            &&& 0 <= meshes.water_faces@[j].center_y <= 16448
                            &&& 0 <= meshes.water_faces@[j].center_z <= 16448
                            &&& meshes.water_faces@[j].base_index <= 90000024
                        },
                decreases 256 - y,
            {
                let mut z: usize = 0;
                while z < 16
                    invariant
                        z <= 16,
                        meshes.solid_vertices@ == mesh_solid_upto(
                            *world,
                            hx,
                            hz,
                            home@,
                            x as int * 4096 + y as int * 16 + z as int,
                        ),
                        meshes.water_vertices@ == mesh_water_upto(
                            *world,
                            hx,
                            hz,
                            home@,
                            x as int * 4096 + y as int * 16 + z as int,
                        ),
                        meshes.water_faces@ == mesh_faces_upto(
                            *world,
                            hx,
                            hz,
                            home@,
                            x as int * 4096 + y as int * 16 + z as int,
                        ),
                        meshes.solid_vertices@.len() % 4 == 0,
                        meshes.water_vertices@.len() <= 24 * (x as int * 4096 + y as int * 16
                            + z as int),
                        meshes.water_faces@.len() <= 6 * (x as int * 4096 + y as int * 16
                            + z as int),
                        forall|j: int|
                            0 <= j < meshes.water_faces@.len() ==> {
                                &&& 0 <= (#[trigger] meshes.water_faces@[j]).center_x <= 16448
                                &&& 0 <= meshes.water_faces@[j].center_y <= 16448
                                &&& 0 <= meshes.water_faces@[j].center_z <= 16448
                                &&& meshes.water_faces@[j].base_index <= 90000024
                            },
                    decreases 16 - z,
                {
                    let ghost k = x as int * 4096 + y as int * 16 + z as int;
                    let idx: usize = (x * 256 + y) * 16 + z;
                    let c = home[idx];
                    proof {
                        lemma_idx_of_coords(x as int, y as int, z as int);
                        lemma_cell_mesh_lens(
                            *world,
                            hx,
                            hz,
                            home@,
                            x as int,
                            y as int,
                            z as int,
                            t_any(),
                            0,
                            0,
                            6,
                        );
                    }
                    match Block::by_id(c.block_id) {
                        Block::Empty => {},
                        Block::Solid { texture_ids } => {
                            proof {
                                assert(forall|i2: int|
                                    0 <= i2 < 6 ==> texture_ids.spec_face(i2) <= 1023);
                            }
                            emit_solid_block(world, coords, home, x, y, z, texture_ids, &mut meshes);
                            proof {
                                lemma_cell_mesh_lens(
                                    *world,
                                    hx,
                                    hz,
                                    home@,
                                    x as int,
                                    y as int,
                                    z as int,
                                    texture_ids,
                                    0,
                                    0,
                                    6,
                                );
                            }
                        },
                        Block::Fluid { texture_id } => {
                            emit_water_block(world, coords, home, x, y, z, texture_id, &mut meshes);
                            proof {
                                lemma_cell_mesh_lens(
                                    *world,
                                    hx,
                                    hz,
                                    home@,
                                    x as int,
                                    y as int,
                                    z as int,
                                    t_any(),
                                    texture_id,
                                    mesh_water_upto(*world, hx, hz, home@, k).len() as int,
                                    6,
                                );
                            }
                        },
                        Block::Flower { texture_id } => {
                            emit_flower_block(home, x, y, z, texture_id, &mut meshes);
                        },
                        Block::Torch { texture_id } => {
                            emit_torch_block(home, x, y, z, texture_id, &mut meshes);
                        },
                    }
                    z = z + 1;
                }
                y = y + 1;
            }
            x = x + 1;
        }
        meshes
    }
}

} // verus!

