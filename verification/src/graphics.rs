//! Renderable chunk geometry: packed vertices, quad index buffers, and
//! the distance-sorted water face list.
//!
//! A vertex packs its quantized position, texture cell, sub-texture
//! corner and three light components into two 32-bit words. Positions
//! are in sixteenths of a block, so a corner of a 16 x 256 x 16 chunk
//! fits 9 bits horizontally and 13 bits vertically. Water faces carry
//! their center point so the face list can be re-sorted back-to-front
//! whenever the camera moves to a new block.

use vstd::arithmetic::div_mod::{
    lemma_fundamental_div_mod_converse_div, lemma_fundamental_div_mod_converse_mod,
};
use vstd::prelude::*;

verus! {

/// A packed mesh vertex: two 32-bit words as described in `pack_word0`
/// and `pack_word1`.
#[derive(Clone, Copy, PartialEq, Eq, Structural, Debug)]
pub struct Vertex {
    pub w0: u32,
    pub w1: u32,
}

/// The unpacked fields of one vertex.
pub struct VertexDesc {
    /// Local position in sixteenths of a block: x, z in [0, 256], y in
    /// [0, 4096].
    pub x: u16,
    pub y: u16,
    pub z: u16,
    /// Texture atlas cell.
    pub texture_id: u16,
    /// Sub-texture corner in sixteenths of a tile: [0, 16].
    pub u: u8,
    pub v: u8,
    /// Per-face ambient factor, in [0, 15].
    pub diffused_light: u8,
    /// The two light channels, in [0, 15].
    pub sun_light: u8,
    pub block_light: u8,
}

/// Fields small enough to pack.
pub open spec fn desc_wf(d: VertexDesc) -> bool {
    d.x <= 511 && d.y <= 8191 && d.z <= 511 && d.u <= 31 && d.v <= 31 && d.texture_id <= 1023
        && d.diffused_light <= 15 && d.sun_light <= 15 && d.block_light <= 15
}

/// First word: x in bits 0..9, y in bits 9..22, u in bits 22..27,
/// ambient factor in bits 27..31.
pub open spec fn pack_word0(d: VertexDesc) -> int {
    d.x + d.y * 512 + d.u * 4194304 + d.diffused_light * 134217728
}

/// Second word: z in bits 0..9, v in bits 9..14, texture id in bits
/// 14..24, sunlight in bits 24..28, block light in bits 28..32.
pub open spec fn pack_word1(d: VertexDesc) -> int {
    d.z + d.v * 512 + d.texture_id * 16384 + d.sun_light * 16777216 + d.block_light * 268435456
}

impl Vertex {
    /// Packs the fields into the two words.
    pub fn new(desc: VertexDesc) -> (r: Vertex)
        requires
            desc_wf(desc),
        ensures
            r.w0 == pack_word0(desc),
            r.w1 == pack_word1(desc),
    {
        let w0: u32 = (desc.x as u32) + (desc.y as u32) * 512 + (desc.u as u32) * 4194304 + (
        desc.diffused_light as u32) * 134217728;
        let w1: u32 = (desc.z as u32) + (desc.v as u32) * 512 + (desc.texture_id as u32) * 16384 + (
        desc.sun_light as u32) * 16777216 + (desc.block_light as u32) * 268435456;
        Vertex { w0, w1 }
    }
}

/// The packing is lossless: each field comes back out of its word by
/// division and remainder.
pub proof fn lemma_vertex_pack_lossless(d: VertexDesc)
    requires
        desc_wf(d),
    ensures
        pack_word0(d) % 512 == d.x,
        (pack_word0(d) / 512) % 8192 == d.y,
        (pack_word0(d) / 4194304) % 32 == d.u,
        pack_word0(d) / 134217728 == d.diffused_light,
        pack_word1(d) % 512 == d.z,
        (pack_word1(d) / 512) % 32 == d.v,
        (pack_word1(d) / 16384) % 1024 == d.texture_id,
        (pack_word1(d) / 16777216) % 16 == d.sun_light,
        pack_word1(d) / 268435456 == d.block_light,
{
    let w0 = pack_word0(d);
    lemma_fundamental_div_mod_converse_mod(w0, 512, d.y + d.u * 8192 + d.diffused_light * 262144, d.x as int);
    lemma_fundamental_div_mod_converse_div(w0, 512, d.y + d.u * 8192 + d.diffused_light * 262144, d.x as int);
    lemma_fundamental_div_mod_converse_mod(
        d.y + d.u * 8192 + d.diffused_light * 262144,
        8192,
        d.u + d.diffused_light * 32,
        d.y as int,
    );
    lemma_fundamental_div_mod_converse_div(w0, 4194304, d.u + d.diffused_light * 32, d.x + d.y * 512);
    lemma_fundamental_div_mod_converse_mod(d.u + d.diffused_light * 32, 32, d.diffused_light as int, d.u as int);
    lemma_fundamental_div_mod_converse_div(
        w0,
        134217728,
        d.diffused_light as int,
        d.x + d.y * 512 + d.u * 4194304,
    );
    let w1 = pack_word1(d);
    let r1 = d.v + d.texture_id * 32 + d.sun_light * 32768 + d.block_light * 524288;
    lemma_fundamental_div_mod_converse_mod(w1, 512, r1, d.z as int);
    lemma_fundamental_div_mod_converse_div(w1, 512, r1, d.z as int);
    lemma_fundamental_div_mod_converse_mod(r1, 32, d.texture_id + d.sun_light * 1024 + d.block_light * 16384, d.v as int);
    lemma_fundamental_div_mod_converse_div(
        w1,
        16384,
        d.texture_id + d.sun_light * 1024 + d.block_light * 16384,
        d.z + d.v * 512,
    );
    lemma_fundamental_div_mod_converse_mod(
        d.texture_id + d.sun_light * 1024 + d.block_light * 16384,
        1024,
        d.sun_light + d.block_light * 16,
        d.texture_id as int,
    );
    lemma_fundamental_div_mod_converse_div(
        w1,
        16777216,
        d.sun_light + d.block_light * 16,
        d.z + d.v * 512 + d.texture_id * 16384,
    );
    lemma_fundamental_div_mod_converse_mod(d.sun_light + d.block_light * 16, 16, d.block_light as int, d.sun_light as int);
    lemma_fundamental_div_mod_converse_div(
        w1,
        268435456,
        d.block_light as int,
        d.z + d.v * 512 + d.texture_id * 16384 + d.sun_light * 16777216,
    );
}

/// One emitted water face: where its four vertices start in the vertex
/// buffer, its center in sixty-fourths of a block, and its last computed
/// squared distance to the camera.
#[derive(Clone, Copy, PartialEq, Eq, Structural, Debug)]
pub struct Face {
    pub base_index: u32,
    pub center_x: i64,
    pub center_y: i64,
    pub center_z: i64,
    pub distance: u64,
}

/// The fixed index pattern of one quad of four vertices.
pub open spec fn quad_index(j: int) -> int {
    if j == 0 {
        0
    } else if j == 1 {
        1
    } else if j == 2 {
        2
    } else if j == 3 {
        2
    } else if j == 4 {
        1
    } else {
        3
    }
}

impl Face {
    /// The index buffer of `face_count` consecutive quads: the quad
    /// pattern offset by four per face.
    pub fn generate_default_indices(face_count: usize) -> (r: Vec<u32>)
        requires
            face_count <= 100000000,
        ensures
            r@.len() == 6 * face_count,
            forall|i: int|
                0 <= i < 6 * face_count ==> #[trigger] r@[i] == quad_index(i % 6) + 4 * (i / 6),
    {
        let mut r: Vec<u32> = Vec::with_capacity(6 * face_count);
        let mut k: usize = 0;
        while k < face_count
            invariant
                k <= face_count <= 100000000,
                r@.len() == 6 * k,
                forall|i: int|
                    0 <= i < 6 * k ==> #[trigger] r@[i] == quad_index(i % 6) + 4 * (i / 6),
            decreases face_count - k,
        {
            let base: u32 = 4 * (k as u32);
            r.push(base);
            r.push(base + 1);
            r.push(base + 2);
            r.push(base + 2);
            r.push(base + 1);
            r.push(base + 3);
            k = k + 1;
        }
        r
    }

    /// The index buffer of the given faces in their current order: the
    /// quad pattern offset by each face's base index.
    pub fn generate_indices(faces: &Vec<Face>) -> (r: Vec<u32>)
        requires
            faces@.len() <= 100000000,
            forall|k: int| 0 <= k < faces@.len() ==> (#[trigger] faces@[k]).base_index <= u32::MAX - 3,
        ensures
            r@.len() == 6 * faces@.len(),
            forall|i: int|
                0 <= i < 6 * faces@.len() ==> #[trigger] r@[i] == quad_index(i % 6) + faces@[i
                    / 6].base_index,
    {
        let n = faces.len();
        let mut r: Vec<u32> = Vec::with_capacity(6 * n);
        let mut k: usize = 0;
        while k < n
            invariant
                k <= n,
                n == faces@.len(),
                r@.len() == 6 * k,
                forall|k2: int|
                    0 <= k2 < n ==> (#[trigger] faces@[k2]).base_index <= u32::MAX - 3,
                forall|i: int|
                    0 <= i < 6 * k ==> #[trigger] r@[i] == quad_index(i % 6) + faces@[i
                        / 6].base_index,
            decreases n - k,
        {
            let base: u32 = faces[k].base_index;
            r.push(base);
            r.push(base + 1);
            r.push(base + 2);
            r.push(base + 2);
            r.push(base + 1);
            r.push(base + 3);
            k = k + 1;
        }
        r
    }
}

/// A mesh ready to hand to a renderer: a vertex buffer and an index
/// buffer over it.
pub struct ChunkMesh {
    pub vertices: Vec<Vertex>,
    pub indices: Vec<u32>,
}

/// The squared camera distance of a face center, both in sixty-fourths
/// of a block.
pub open spec fn face_distance2(f: Face, cx: int, cy: int, cz: int) -> int {
    (cx - f.center_x) * (cx - f.center_x) + (cy - f.center_y) * (cy - f.center_y) + (cz
        - f.center_z) * (cz - f.center_z)
}

/// Coordinates small enough that squared distances fit in 64 bits.
pub open spec fn dist_safe(v: int) -> bool {
    -0x40000000 <= v <= 0x40000000
}

/// A face list in back-to-front order: distances never increase.
pub open spec fn faces_sorted(s: Seq<Face>) -> bool {
    forall|i: int, j: int| 0 <= i <= j < s.len() ==> (#[trigger] s[i]).distance >= (#[trigger] s[j]).distance
}

/// Derived geometry of one chunk: the opaque mesh, the water mesh, and
/// the re-sortable water face list with its staleness flag.
pub struct ChunkGraphics {
    pub solid_mesh: ChunkMesh,
    pub water_mesh: ChunkMesh,
    pub water_faces: Vec<Face>,
    pub water_faces_unsorted: bool,
}

impl ChunkGraphics {
    /// Whether the water faces must be re-sorted before drawing.
    pub fn needs_water_faces_sorting(&self) -> (r: bool)
        ensures
            r == self.water_faces_unsorted,
    {
        self.water_faces_unsorted
    }

    /// Re-sorts the water faces back-to-front by squared distance to the
    /// camera (given relative to the chunk, in sixty-fourths of a block)
    /// and rewrites the water index buffer to the new order. The same
    /// faces remain, sorted, and the staleness flag clears.
    pub fn sort_water_faces(&mut self, cam_x: i64, cam_y: i64, cam_z: i64)
        requires
            old(self).water_faces@.len() <= 100000000,
            dist_safe(cam_x as int),
            dist_safe(cam_y as int),
            dist_safe(cam_z as int),
            forall|k: int|
                0 <= k < old(self).water_faces@.len() ==> {
                    &&& dist_safe((#[trigger] old(self).water_faces@[k]).center_x as int)
                    &&& dist_safe(old(self).water_faces@[k].center_y as int)
                    &&& dist_safe(old(self).water_faces@[k].center_z as int)
                    &&& old(self).water_faces@[k].base_index <= u32::MAX - 3
                },
        ensures
            final(self).water_faces_unsorted == false,
            final(self).water_faces@.len() == old(self).water_faces@.len(),
            faces_sorted(final(self).water_faces@),
            // the same faces, with refreshed distances
            keys_of(final(self).water_faces@).to_multiset() == keys_of(
                old(self).water_faces@,
            ).to_multiset(),
            forall|k: int|
                0 <= k < final(self).water_faces@.len() ==> (#[trigger] final(self).water_faces@[k]).distance == face_distance2(
                    final(self).water_faces@[k],
                    cam_x as int,
                    cam_y as int,
                    cam_z as int,
                ),
            // the index buffer follows the new face order
            final(self).water_mesh.indices@.len() == 6 * final(self).water_faces@.len(),
            forall|i: int|
                0 <= i < 6 * final(self).water_faces@.len()
                    ==> #[trigger] final(self).water_mesh.indices@[i] == quad_index(i % 6)
                    + final(self).water_faces@[i / 6].base_index,
            final(self).water_mesh.vertices == old(self).water_mesh.vertices,
            final(self).solid_mesh == old(self).solid_mesh,
    {
        self.water_faces_unsorted = false;
        let n = self.water_faces.len();
        let mut k: usize = 0;
        while k < n
            invariant
                k <= n,
                n == self.water_faces@.len(),
                dist_safe(cam_x as int),
                dist_safe(cam_y as int),
                dist_safe(cam_z as int),
                forall|k2: int|
                    0 <= k2 < n ==> {
                        &&& dist_safe((#[trigger] self.water_faces@[k2]).center_x as int)
                        &&& dist_safe(self.water_faces@[k2].center_y as int)
                        &&& dist_safe(self.water_faces@[k2].center_z as int)
                        &&& self.water_faces@[k2].base_index <= u32::MAX - 3
                    },
                forall|k2: int|
                    0 <= k2 < n ==> (#[trigger] self.water_faces@[k2]).base_index
                        == old(self).water_faces@[k2].base_index && self.water_faces@[k2].center_x
                        == old(self).water_faces@[k2].center_x && self.water_faces@[k2].center_y
                        == old(self).water_faces@[k2].center_y && self.water_faces@[k2].center_z
                        == old(self).water_faces@[k2].center_z,
                forall|k2: int|
                    0 <= k2 < k ==> (#[trigger] self.water_faces@[k2]).distance == face_distance2(
                        self.water_faces@[k2],
                        cam_x as int,
                        cam_y as int,
                        cam_z as int,
                    ),
                self.water_mesh == old(self).water_mesh,
                self.solid_mesh == old(self).solid_mesh,
                self.water_faces_unsorted == false,
            decreases n - k,
        {
            let f = self.water_faces[k];
            proof {
                assert(dist_safe(self.water_faces@[k as int].center_x as int));
                assert(dist_safe(self.water_faces@[k as int].center_y as int));
                assert(dist_safe(self.water_faces@[k as int].center_z as int));
            }
            let dx: i64 = cam_x - f.center_x;
            let dy: i64 = cam_y - f.center_y;
            let dz: i64 = cam_z - f.center_z;
            proof {
                assert(dx * dx <= 0x4000000000000000) by (nonlinear_arith)
                    requires -0x80000000 <= dx <= 0x80000000;
                assert(dx * dx >= 0) by (nonlinear_arith);
                assert(dy * dy <= 0x4000000000000000) by (nonlinear_arith)
                    requires -0x80000000 <= dy <= 0x80000000;
                assert(dy * dy >= 0) by (nonlinear_arith);
                assert(dz * dz <= 0x4000000000000000) by (nonlinear_arith)
                    requires -0x80000000 <= dz <= 0x80000000;
                assert(dz * dz >= 0) by (nonlinear_arith);
            }
            let d: u64 = (dx * dx) as u64 + (dy * dy) as u64 + (dz * dz) as u64;
            self.water_faces[k] = Face {
                base_index: f.base_index,
                center_x: f.center_x,
                center_y: f.center_y,
                center_z: f.center_z,
                distance: d,
            };
            k = k + 1;
        }
        proof {
            assert(keys_of(self.water_faces@) =~= keys_of(old(self).water_faces@));
        }
        let ghost refreshed = self.water_faces@;
        sort_faces_by_distance(&mut self.water_faces);
        proof {
            broadcast use vstd::seq_lib::group_to_multiset_ensures;

            assert forall|k: int| 0 <= k < self.water_faces@.len() implies (
            #[trigger] self.water_faces@[k]).distance == face_distance2(
                self.water_faces@[k],
                cam_x as int,
                cam_y as int,
                cam_z as int,
            ) by {
                let f = self.water_faces@[k];
                assert(self.water_faces@.contains(f));
                assert(self.water_faces@.to_multiset().count(f) > 0);
                assert(refreshed.to_multiset().count(f) > 0);
                assert(refreshed.contains(f));
                let j = choose|j: int| 0 <= j < refreshed.len() && refreshed[j] == f;
                assert(refreshed[j].distance == face_distance2(
                    refreshed[j],
                    cam_x as int,
                    cam_y as int,
                    cam_z as int,
                ));
            }
            assert forall|k: int| 0 <= k < self.water_faces@.len() implies (
            #[trigger] self.water_faces@[k]).base_index <= u32::MAX - 3 by {
                let f = self.water_faces@[k];
                assert(self.water_faces@.contains(f));
                assert(self.water_faces@.to_multiset().count(f) > 0);
                assert(refreshed.to_multiset().count(f) > 0);
                assert(refreshed.contains(f));
                let j = choose|j: int| 0 <= j < refreshed.len() && refreshed[j] == f;
                assert(refreshed[j].base_index == old(self).water_faces@[j].base_index);
            }
        }
        let indices = Face::generate_indices(&self.water_faces);
        self.water_mesh.indices = indices;
    }
}

/// The identity of a face, without its mutable distance field.
pub open spec fn face_key(f: Face) -> (u32, i64, i64, i64) {
    (f.base_index, f.center_x, f.center_y, f.center_z)
}

/// The faces' identities, in order.
pub open spec fn keys_of(s: Seq<Face>) -> Seq<(u32, i64, i64, i64)> {
    s.map_values(|f: Face| face_key(f))
}

/// Insertion sort of the face list, descending by distance. The list
/// afterwards holds exactly the same faces, back to front.
fn sort_faces_by_distance(faces: &mut Vec<Face>)
    ensures
        final(faces)@.len() == old(faces)@.len(),
        faces_sorted(final(faces)@),
        final(faces)@.to_multiset() == old(faces)@.to_multiset(),
        keys_of(final(faces)@).to_multiset() == keys_of(old(faces)@).to_multiset(),
{
    let n = faces.len();
    if n < 2 {
        proof {
            assert(faces_sorted(faces@));
        }
        return ;
    }
    let mut i: usize = 1;
    while i < n
        invariant
            1 <= i <= n,
            n == faces@.len(),
            faces_sorted(faces@.take(i as int)),
            faces@.to_multiset() == old(faces)@.to_multiset(),
            keys_of(faces@).to_multiset() == keys_of(old(faces)@).to_multiset(),
        decreases n - i,
    {
        proof {
            assert forall|a: int, b: int|
                0 <= a <= b <= i && a != i && b != i implies (#[trigger] faces@[a]).distance >= (
            #[trigger] faces@[b]).distance by {
                assert(faces@.take(i as int)[a] == faces@[a]);
                assert(faces@.take(i as int)[b] == faces@[b]);
            }
        }
        let mut j: usize = i;
        while j > 0 && faces[j - 1].distance < faces[j].distance
            invariant
                0 <= j <= i < n,
                n == faces@.len(),
                faces@.to_multiset() == old(faces)@.to_multiset(),
                keys_of(faces@).to_multiset() == keys_of(old(faces)@).to_multiset(),
                forall|a: int, b: int|
                    0 <= a <= b <= i && a != j && b != j ==> (#[trigger] faces@[a]).distance >= (
                    #[trigger] faces@[b]).distance,
                forall|b: int|
                    j < b <= i ==> (#[trigger] faces@[b]).distance <= faces@[j as int].distance,
            decreases j,
        {
            let ghost pre = faces@;
            let fa = faces[j - 1];
            let fb = faces[j];
            faces[j - 1] = fb;
            faces[j] = fa;
            proof {
                assert(faces@ =~= pre.update(j - 1, pre[j as int]).update(j as int, pre[j - 1]));
                lemma_swap_multiset(pre, faces@, j - 1, j as int);
                assert(keys_of(faces@) =~= keys_of(pre).update(
                    j - 1,
                    keys_of(pre)[j as int],
                ).update(j as int, keys_of(pre)[j - 1]));
                lemma_swap_multiset(keys_of(pre), keys_of(faces@), j - 1, j as int);
            }
            j = j - 1;
        }
        proof {
            assert forall|a: int, b: int| 0 <= a <= b <= i implies (#[trigger] faces@[a]).distance
                >= (#[trigger] faces@[b]).distance by {
                if a == j && b != j {
                    assert(faces@[b].distance <= faces@[j as int].distance);
                } else if b == j && a != j {
                    assert(faces@[a].distance >= faces@[j - 1].distance);
                    assert(faces@[j - 1].distance >= faces@[j as int].distance);
                }
            }
        }
        i = i + 1;
        proof {
            assert(faces_sorted(faces@.take(i as int)));
        }
    }
    proof {
        assert(faces@.take(n as int) =~= faces@);
    }
}

/// Swapping two positions of a sequence keeps its multiset.
pub proof fn lemma_swap_multiset<A>(s1: Seq<A>, s2: Seq<A>, a: int, b: int)
    requires
        0 <= a < b < s1.len(),
        s2 == s1.update(a, s1[b]).update(b, s1[a]),
    ensures
        s2.to_multiset() == s1.to_multiset(),
{
    broadcast use vstd::seq_lib::group_to_multiset_ensures;
    broadcast use vstd::multiset::group_multiset_axioms;

    let t = s1.update(a, s1[b]);
    assert(t.to_multiset() == s1.to_multiset().insert(s1[b]).remove(s1[a]));
    assert(t[a] == s1[b] && t[b] == s1[b]);
    assert(s2.to_multiset() == t.to_multiset().insert(s1[a]).remove(t[b]));
    assert(s1.contains(s1[a]));
    assert(s1.contains(s1[b]));
    assert forall|f: A| true implies s2.to_multiset().count(f) == s1.to_multiset().count(f) by {
        assert(s1.to_multiset().count(s1[a]) > 0);
        assert(s1.to_multiset().count(s1[b]) > 0);
    }
    assert(s2.to_multiset() =~= s1.to_multiset());
}

} // verus!
