//! The raycaster, the frustum test and the per-frame update surface.

use mycraft::blocks::{Block, BlockId};
use mycraft::chunk::ChunkStatus;
use mycraft::coords::{BlockCoords, ChunkCoords};
use mycraft::frustrum::{chunk_aabb, Frustrum, Plane};
use mycraft::graphics::{ChunkGraphics, ChunkMesh};
use mycraft::raycasting::{cast_ray, BlockSide, Vec3Fx};
use mycraft::world::World;

const FP: i64 = 65536;

fn fx(blocks: i64, sixteenths: i64) -> i64 {
    blocks * FP + sixteenths * (FP / 16)
}

#[test]
fn raycast_hits_the_first_stone_along_positive_z() {
    let mut world = World::new();
    world.load_chunk(ChunkCoords { x: 0, z: 0 });
    world.set_block(BlockCoords { x: 0, y: 10, z: 5 }, BlockId::Stone);
    let origin = Vec3Fx { x: fx(0, 8), y: fx(10, 8), z: fx(0, 8) };
    let direction = Vec3Fx { x: 0, y: 0, z: FP };
    let hit = cast_ray(&world, origin, direction, 6 * FP).expect("must hit");
    assert_eq!(hit.coords, BlockCoords { x: 0, y: 10, z: 5 });
    assert!(matches!(hit.side, BlockSide::NegZ));
    // the hit point is exactly (0.5, 10.5, 5.0)
    assert_eq!(hit.point, Vec3Fx { x: fx(0, 8), y: fx(10, 8), z: fx(5, 0) });
    assert_eq!(hit.block, Block::by_id(BlockId::Stone));
}

#[test]
fn raycast_misses_beyond_its_range() {
    let mut world = World::new();
    world.load_chunk(ChunkCoords { x: 0, z: 0 });
    world.set_block(BlockCoords { x: 0, y: 10, z: 8 }, BlockId::Stone);
    let origin = Vec3Fx { x: fx(0, 8), y: fx(10, 8), z: fx(0, 8) };
    let direction = Vec3Fx { x: 0, y: 0, z: FP };
    assert!(cast_ray(&world, origin, direction, 6 * FP).is_none());
    assert!(cast_ray(&world, origin, direction, 10 * FP).is_some());
}

#[test]
fn raycast_reports_the_entered_face() {
    let mut world = World::new();
    world.load_chunk(ChunkCoords { x: 0, z: 0 });
    world.set_block(BlockCoords { x: 5, y: 10, z: 5 }, BlockId::Stone);
    let from_above = cast_ray(
        &world,
        Vec3Fx { x: fx(5, 8), y: fx(14, 8), z: fx(5, 8) },
        Vec3Fx { x: 0, y: -FP, z: 0 },
        6 * FP,
    )
    .expect("must hit");
    assert!(matches!(from_above.side, BlockSide::PosY));
    let from_east = cast_ray(
        &world,
        Vec3Fx { x: fx(9, 8), y: fx(10, 8), z: fx(5, 8) },
        Vec3Fx { x: -FP, y: 0, z: 0 },
        6 * FP,
    )
    .expect("must hit");
    assert!(matches!(from_east.side, BlockSide::PosX));
}

#[test]
fn zero_direction_never_hits() {
    let mut world = World::new();
    world.load_chunk(ChunkCoords { x: 0, z: 0 });
    world.set_block(BlockCoords { x: 0, y: 10, z: 1 }, BlockId::Stone);
    let origin = Vec3Fx { x: fx(0, 8), y: fx(10, 8), z: fx(0, 8) };
    assert!(cast_ray(&world, origin, Vec3Fx { x: 0, y: 0, z: 0 }, 6 * FP).is_none());
}

/// A box-shaped frustum covering the region 0..=span blocks on x and z
/// and the full world height, ending at `far` along z.
fn box_frustum(span: i64, far: i64) -> Frustrum {
    let plane = |nx: i64, ny: i64, nz: i64, d: i64| Plane {
        nx: nx * FP,
        ny: ny * FP,
        nz: nz * FP,
        d: d * FP,
    };
    Frustrum {
        left: plane(1, 0, 0, 1),
        right: plane(-1, 0, 0, span),
        bottom: plane(0, 1, 0, 1),
        top: plane(0, -1, 0, 300),
        near: plane(0, 0, 1, 1),
        far: plane(0, 0, -1, far),
    }
}

#[test]
fn chunk_beyond_the_far_plane_is_excluded() {
    let f = box_frustum(1000, 100);
    // a chunk box entirely past the far plane fails the test, the same
    // box inside passes
    assert!(!f.intersects_with_aabb(&chunk_aabb(0, 20)));
    assert!(f.intersects_with_aabb(&chunk_aabb(0, 2)));
}

fn empty_graphics() -> ChunkGraphics {
    ChunkGraphics {
        solid_mesh: ChunkMesh { vertices: Vec::new(), indices: Vec::new() },
        water_mesh: ChunkMesh { vertices: Vec::new(), indices: Vec::new() },
        water_faces: Vec::new(),
        water_faces_unsorted: false,
    }
}

#[test]
fn render_list_excludes_chunks_beyond_the_far_plane() {
    let mut world = World::new();
    world.load_chunk(ChunkCoords { x: 0, z: 2 });
    world.load_chunk(ChunkCoords { x: 0, z: 20 });
    world.install_graphics(ChunkCoords { x: 0, z: 2 }, empty_graphics());
    world.install_graphics(ChunkCoords { x: 0, z: 20 }, empty_graphics());
    world.refresh_visibility(&box_frustum(1000, 100));
    assert_eq!(world.num_chunks_rendered(), 1);
    assert_eq!(world.render_queue[0], ChunkCoords { x: 0, z: 2 });
    // moving the far plane out brings the second chunk in
    world.refresh_visibility(&box_frustum(1000, 1000));
    assert_eq!(world.num_chunks_rendered(), 2);
}

#[test]
fn update_drains_work_nearest_first() {
    let mut world = World::new();
    world.load_chunk(ChunkCoords { x: 0, z: 2 });
    world.load_chunk(ChunkCoords { x: 0, z: 8 });
    world.begin_frame(BlockCoords { x: 8, y: 60, z: 8 });
    world.refresh_visibility(&box_frustum(1000, 1000));
    // both need generation; the nearer chunk comes first
    let first = world.next_job().expect("work pending");
    assert_eq!(first, ChunkCoords { x: 0, z: 2 });
    world.set_status(first, ChunkStatus::Ready);
    let second = world.next_job().expect("work pending");
    assert_eq!(second, ChunkCoords { x: 0, z: 8 });
    world.set_status(second, ChunkStatus::Ready);
    assert!(world.next_job().is_none());
}

#[test]
fn water_sort_step_clears_one_stale_chunk() {
    let mut world = World::new();
    world.load_chunk(ChunkCoords { x: 0, z: 0 });
    world.set_block(BlockCoords { x: 8, y: 100, z: 8 }, BlockId::Water);
    let meshes = mycraft::mesh::ChunkMeshes::generate(&world, ChunkCoords { x: 0, z: 0 });
    let indices = mycraft::graphics::Face::generate_indices(&meshes.water_faces);
    world.install_graphics(
        ChunkCoords { x: 0, z: 0 },
        ChunkGraphics {
            solid_mesh: ChunkMesh { vertices: meshes.solid_vertices, indices: Vec::new() },
            water_mesh: ChunkMesh { vertices: meshes.water_vertices, indices },
            water_faces: meshes.water_faces,
            water_faces_unsorted: true,
        },
    );
    world.refresh_visibility(&box_frustum(1000, 1000));
    // the camera in sixty-fourths of a block
    world.sort_one_water(8 * 64, 120 * 64, 8 * 64);
    let g = match world.borrow_chunk(ChunkCoords { x: 0, z: 0 }) {
        Some(chunk) => chunk.graphics.as_ref().expect("graphics installed"),
        None => panic!("chunk loaded"),
    };
    assert!(!g.water_faces_unsorted);
    for w in g.water_faces.windows(2) {
        assert!(w[0].distance >= w[1].distance);
    }
}

#[test]
fn box_touching_a_plane_is_still_visible() {
    // the far plane sits exactly on the chunk's near edge: the farthest
    // corner along the plane normal has signed distance zero, which
    // counts as inside
    let f = box_frustum(1000, 320);
    assert!(f.intersects_with_aabb(&chunk_aabb(0, 20)));
    // one block short of the edge, it is out
    let g = box_frustum(1000, 319);
    assert!(!g.intersects_with_aabb(&chunk_aabb(0, 20)));
}
