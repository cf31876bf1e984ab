//! The mesher: face culling, vertex packing, water faces, index buffers
//! and the back-to-front water sort.

use mycraft::blocks::BlockId;
use mycraft::coords::{BlockCoords, ChunkCoords};
use mycraft::graphics::{ChunkGraphics, ChunkMesh, Face, Vertex, VertexDesc};
use mycraft::mesh::ChunkMeshes;
use mycraft::world::World;

fn world_with_chunk() -> World {
    let mut world = World::new();
    world.load_chunk(ChunkCoords { x: 0, z: 0 });
    world
}

#[test]
fn isolated_stone_emits_six_faces() {
    let mut world = world_with_chunk();
    world.set_block(BlockCoords { x: 8, y: 100, z: 8 }, BlockId::Stone);
    let meshes = ChunkMeshes::generate(&world, ChunkCoords { x: 0, z: 0 });
    assert_eq!(meshes.solid_vertices.len(), 24);
    assert_eq!(meshes.water_vertices.len(), 0);
    assert_eq!(meshes.water_faces.len(), 0);
}

#[test]
fn fully_enclosed_stone_emits_no_faces() {
    let mut world = world_with_chunk();
    world.set_block(BlockCoords { x: 8, y: 100, z: 8 }, BlockId::Stone);
    for (dx, dy, dz) in [
        (0, 0, -1),
        (0, 0, 1),
        (0, -1, 0),
        (0, 1, 0),
        (-1, 0, 0),
        (1, 0, 0),
    ] {
        world.set_block(
            BlockCoords {
                x: 8 + dx,
                y: 100 + dy,
                z: 8 + dz,
            },
            BlockId::Stone,
        );
    }
    let meshes = ChunkMeshes::generate(&world, ChunkCoords { x: 0, z: 0 });
    // each of the six surrounding stones shows five faces; the enclosed
    // center shows none
    assert_eq!(meshes.solid_vertices.len(), 6 * 5 * 4);
}

#[test]
fn faces_against_unloaded_chunks_are_not_drawn() {
    let mut world = world_with_chunk();
    // a stone in the chunk corner: its -x and -z neighbors are unloaded
    world.set_block(BlockCoords { x: 0, y: 100, z: 0 }, BlockId::Stone);
    let meshes = ChunkMeshes::generate(&world, ChunkCoords { x: 0, z: 0 });
    assert_eq!(meshes.solid_vertices.len(), 4 * 4);
}

#[test]
fn top_face_of_the_world_is_drawn_under_full_sky() {
    let mut world = world_with_chunk();
    world.set_block(BlockCoords { x: 8, y: 255, z: 8 }, BlockId::Stone);
    let meshes = ChunkMeshes::generate(&world, ChunkCoords { x: 0, z: 0 });
    // all six faces: the cell above the ceiling reads as lit air
    assert_eq!(meshes.solid_vertices.len(), 24);
}

#[test]
fn flowers_and_torches_emit_fixed_quad_sets() {
    let mut world = world_with_chunk();
    world.set_block(BlockCoords { x: 2, y: 100, z: 2 }, BlockId::RedFlower);
    world.set_block(BlockCoords { x: 5, y: 100, z: 5 }, BlockId::Torch);
    let meshes = ChunkMeshes::generate(&world, ChunkCoords { x: 0, z: 0 });
    // four crossed quads for the flower, five quads for the torch
    assert_eq!(meshes.solid_vertices.len(), (4 + 5) * 4);
}

#[test]
fn water_emits_faces_and_records_them() {
    let mut world = world_with_chunk();
    world.set_block(BlockCoords { x: 8, y: 100, z: 8 }, BlockId::Water);
    let meshes = ChunkMeshes::generate(&world, ChunkCoords { x: 0, z: 0 });
    // an isolated water block shows all six (lowered) faces
    assert_eq!(meshes.water_vertices.len(), 24);
    assert_eq!(meshes.water_faces.len(), 6);
    assert_eq!(meshes.solid_vertices.len(), 0);
    // each face's base index points at its four vertices
    for (k, f) in meshes.water_faces.iter().enumerate() {
        assert_eq!(f.base_index as usize, 4 * k);
    }
}

#[test]
fn stacked_water_hides_the_seam() {
    let mut world = world_with_chunk();
    world.set_block(BlockCoords { x: 8, y: 100, z: 8 }, BlockId::Water);
    world.set_block(BlockCoords { x: 8, y: 101, z: 8 }, BlockId::Water);
    let meshes = ChunkMeshes::generate(&world, ChunkCoords { x: 0, z: 0 });
    // the lower cell suppresses its top face against the upper cell and
    // uses the full-height model; each cell shows 5 faces
    assert_eq!(meshes.water_faces.len(), 10);
}

#[test]
fn vertex_packing_is_exact() {
    let v = Vertex::new(VertexDesc {
        x: 256,
        y: 4096,
        z: 16,
        texture_id: 12,
        u: 16,
        v: 7,
        diffused_light: 9,
        sun_light: 15,
        block_light: 3,
    });
    assert_eq!(v.w0, 256 + 4096 * 512 + 16 * 4194304 + 9 * 134217728);
    assert_eq!(v.w1, 16 + 7 * 512 + 12 * 16384 + 15 * 16777216 + 3 * 268435456);
    // every field comes back out of the words
    assert_eq!(v.w0 % 512, 256);
    assert_eq!((v.w0 / 512) % 8192, 4096);
    assert_eq!((v.w0 / 4194304) % 32, 16);
    assert_eq!(v.w0 / 134217728, 9);
    assert_eq!(v.w1 % 512, 16);
    assert_eq!((v.w1 / 512) % 32, 7);
    assert_eq!((v.w1 / 16384) % 1024, 12);
    assert_eq!((v.w1 / 16777216) % 16, 15);
    assert_eq!(v.w1 / 268435456, 3);
}

#[test]
fn default_indices_follow_the_quad_pattern() {
    let idx = Face::generate_default_indices(3);
    assert_eq!(
        idx,
        vec![0, 1, 2, 2, 1, 3, 4, 5, 6, 6, 5, 7, 8, 9, 10, 10, 9, 11]
    );
}

#[test]
fn face_indices_follow_the_face_order() {
    let faces = vec![
        Face {
            base_index: 8,
            center_x: 0,
            center_y: 0,
            center_z: 0,
            distance: 0,
        },
        Face {
            base_index: 0,
            center_x: 0,
            center_y: 0,
            center_z: 0,
            distance: 0,
        },
    ];
    let idx = Face::generate_indices(&faces);
    assert_eq!(idx, vec![8, 9, 10, 10, 9, 11, 0, 1, 2, 2, 1, 3]);
}

#[test]
fn water_faces_sort_back_to_front() {
    let mk = |base: u32, cx: i64| Face {
        base_index: base,
        center_x: cx,
        center_y: 0,
        center_z: 0,
        distance: 0,
    };
    let mut g = ChunkGraphics {
        solid_mesh: ChunkMesh {
            vertices: Vec::new(),
            indices: Vec::new(),
        },
        water_mesh: ChunkMesh {
            vertices: Vec::new(),
            indices: Vec::new(),
        },
        water_faces: vec![mk(0, 10), mk(4, 500), mk(8, 100)],
        water_faces_unsorted: true,
    };
    // camera at the origin: farthest face first
    g.sort_water_faces(0, 0, 0);
    assert!(!g.needs_water_faces_sorting());
    let bases: Vec<u32> = g.water_faces.iter().map(|f| f.base_index).collect();
    assert_eq!(bases, vec![4, 8, 0]);
    for w in g.water_faces.windows(2) {
        assert!(w[0].distance >= w[1].distance);
    }
    // the index buffer was rewritten to the new order
    assert_eq!(g.water_mesh.indices[0], 4);
    assert_eq!(g.water_mesh.indices[6], 8);
    assert_eq!(g.water_mesh.indices[12], 0);
}

#[test]
fn solid_faces_sample_light_from_the_neighbor() {
    let mut world = world_with_chunk();
    mycraft::light::recalculate_light(&mut world, ChunkCoords { x: 0, z: 0 });
    world.set_block(BlockCoords { x: 8, y: 100, z: 8 }, BlockId::Stone);
    let meshes = ChunkMeshes::generate(&world, ChunkCoords { x: 0, z: 0 });
    // every emitted vertex carries the neighbor's sunlight: full beside
    // and above, one less below where the new stone shadows the column
    for v in &meshes.solid_vertices {
        assert!((v.w1 / 16777216) % 16 >= 14);
    }
}
