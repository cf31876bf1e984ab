//! The generator: the column fill policy, decorations, edge truncation
//! and determinism.

use mycraft::blocks::BlockId;
use mycraft::chunk::{Cell, CELL_COUNT};
use mycraft::coords::{BlockCoords, ChunkCoords};
use mycraft::generation::{generate_cells, generate_chunk, ColumnInput, Plant, GEN_COLS, WATER_HEIGHT};
use mycraft::world::World;
use noise::{NoiseFn, Perlin};

fn flat_inputs(height: i32, sand_height: i32, plant: Plant) -> Vec<ColumnInput> {
    (0..GEN_COLS)
        .map(|_| ColumnInput {
            height,
            sand_height,
            plant,
            cave: vec![false; 256],
        })
        .collect()
}

fn cell_of(cells: &[Cell], x: usize, y: usize, z: usize) -> Cell {
    cells[(x * 256 + y) * 16 + z]
}

#[test]
fn column_fill_policy_is_exact() {
    let cells = generate_cells(&flat_inputs(40, 20, Plant::Bare));
    assert_eq!(cells.len(), CELL_COUNT);
    // stone below the dirt layer, dirt below the surface, grass on top
    assert_eq!(cell_of(&cells, 3, 0, 3).block_id, BlockId::Stone);
    assert_eq!(cell_of(&cells, 3, 36, 3).block_id, BlockId::Stone);
    assert_eq!(cell_of(&cells, 3, 37, 3).block_id, BlockId::Dirt);
    assert_eq!(cell_of(&cells, 3, 39, 3).block_id, BlockId::Dirt);
    assert_eq!(cell_of(&cells, 3, 40, 3).block_id, BlockId::Grass);
    assert_eq!(cell_of(&cells, 3, 41, 3).block_id, BlockId::Air);
    assert_eq!(cell_of(&cells, 3, 255, 3).block_id, BlockId::Air);
    // all fresh cells are dark
    assert_eq!(cell_of(&cells, 3, 40, 3).sun_light, 0);
    assert_eq!(cell_of(&cells, 3, 40, 3).block_light, 0);
}

#[test]
fn low_terrain_gets_sand_and_water() {
    // the surface is at or below the sand height, so it is sand, with
    // water filling up to the sea level
    let cells = generate_cells(&flat_inputs(20, 22, Plant::Bare));
    assert_eq!(cell_of(&cells, 0, 20, 0).block_id, BlockId::Sand);
    assert_eq!(cell_of(&cells, 0, 21, 0).block_id, BlockId::Water);
    assert_eq!(
        cell_of(&cells, 0, WATER_HEIGHT as usize, 0).block_id,
        BlockId::Water
    );
    assert_eq!(
        cell_of(&cells, 0, WATER_HEIGHT as usize + 1, 0).block_id,
        BlockId::Air
    );
}

#[test]
fn caves_carve_stone_to_air() {
    let mut inputs = flat_inputs(60, 20, Plant::Bare);
    // carve one cell of the column at local (4, 4)
    let k = (4 + 2) * 20 + (4 + 2);
    inputs[k].cave[10] = true;
    let cells = generate_cells(&inputs);
    assert_eq!(cell_of(&cells, 4, 10, 4).block_id, BlockId::Air);
    assert_eq!(cell_of(&cells, 4, 11, 4).block_id, BlockId::Stone);
    // caves only open below the dirt layer
    let mut inputs2 = flat_inputs(60, 20, Plant::Bare);
    inputs2[k].cave[58] = true;
    let cells2 = generate_cells(&inputs2);
    assert_eq!(cell_of(&cells2, 4, 58, 4).block_id, BlockId::Dirt);
}

#[test]
fn flowers_sit_one_above_grass() {
    let mut inputs = flat_inputs(40, 20, Plant::Bare);
    let k = (5 + 2) * 20 + (5 + 2);
    inputs[k].plant = Plant::Red;
    let cells = generate_cells(&inputs);
    assert_eq!(cell_of(&cells, 5, 41, 5).block_id, BlockId::RedFlower);
    // sand surfaces get no flowers
    let mut sandy = flat_inputs(20, 22, Plant::Bare);
    sandy[k].plant = Plant::Yellow;
    let sandy_cells = generate_cells(&sandy);
    assert_eq!(cell_of(&sandy_cells, 5, 21, 5).block_id, BlockId::Water);
}

#[test]
fn trees_stamp_their_fixed_shape() {
    let mut inputs = flat_inputs(40, 20, Plant::Bare);
    let k = (8 + 2) * 20 + (8 + 2);
    inputs[k].plant = Plant::Tree;
    let cells = generate_cells(&inputs);
    // dirt under the trunk, trunk column, two leaf layers
    assert_eq!(cell_of(&cells, 8, 40, 8).block_id, BlockId::Dirt);
    assert_eq!(cell_of(&cells, 8, 41, 8).block_id, BlockId::Trunk);
    assert_eq!(cell_of(&cells, 8, 43, 8).block_id, BlockId::Trunk);
    assert_eq!(cell_of(&cells, 10, 43, 10).block_id, BlockId::Leaves);
    assert_eq!(cell_of(&cells, 6, 44, 6).block_id, BlockId::Leaves);
    assert_eq!(cell_of(&cells, 9, 45, 9).block_id, BlockId::Leaves);
    assert_eq!(cell_of(&cells, 8, 46, 8).block_id, BlockId::Leaves);
    assert_eq!(cell_of(&cells, 8, 47, 8).block_id, BlockId::Air);
}

#[test]
fn trees_near_the_edge_are_truncated() {
    // a tree rooted in the padding band, one column outside the chunk:
    // only the leaves reaching in are written
    let mut inputs = flat_inputs(40, 20, Plant::Bare);
    let k = (-1i32 + 2) as usize * 20 + (8 + 2);
    inputs[k].plant = Plant::Tree;
    let cells = generate_cells(&inputs);
    // the trunk at local x = -1 is dropped, its leaves at x = 0, 1 stay
    assert_eq!(cell_of(&cells, 0, 43, 8).block_id, BlockId::Leaves);
    assert_eq!(cell_of(&cells, 1, 43, 8).block_id, BlockId::Leaves);
    assert_eq!(cell_of(&cells, 2, 43, 8).block_id, BlockId::Air);
    assert_eq!(cell_of(&cells, 0, 45, 8).block_id, BlockId::Leaves);
    assert_eq!(cell_of(&cells, 1, 45, 8).block_id, BlockId::Air);
}

fn sample_inputs(seed: u32, chunk: ChunkCoords) -> Vec<ColumnInput> {
    let perlin = Perlin::new(seed);
    let mut inputs = Vec::with_capacity(GEN_COLS);
    for cx in -2..18i32 {
        for cz in -2..18i32 {
            let wx = (chunk.x * 16 + cx) as f64;
            let wz = (chunk.z * 16 + cz) as f64;
            let octave = |freq: f64, scale: f64| {
                (perlin.get([wx / freq, wz / freq]) / 2.0 + 0.5) * scale
            };
            let height = (10.0 + octave(80.0, 24.0) + octave(30.0, 12.0) + octave(15.0, 4.0)
                + octave(10.0, 3.0)) as i32;
            let sand_height = WATER_HEIGHT + octave(30.0, 3.0) as i32;
            let hash = ((wx * 3.1251 + wz * 17.8737).sin() * 43758.545312).fract();
            let plant = if hash > 0.99 {
                Plant::Tree
            } else if hash > 0.95 {
                Plant::Red
            } else if hash > 0.9 {
                Plant::Yellow
            } else {
                Plant::Bare
            };
            let cave: Vec<bool> = (0..256)
                .map(|y| {
                    let p = [wx / 40.0, y as f64 / 40.0, wz / 40.0];
                    let q = [wx / 20.0, y as f64 / 20.0, wz / 20.0];
                    (perlin.get(p) / 2.0 + 0.5) * 0.8 + (perlin.get(q) / 2.0 + 0.5) * 0.6 > 0.9
                })
                .collect();
            inputs.push(ColumnInput { height, sand_height, plant, cave });
        }
    }
    inputs
}

#[test]
fn generation_is_deterministic() {
    // the same seed and chunk coordinates sample the same columns, and
    // the generator is a pure function of them: the two runs agree byte
    // for byte
    let a = generate_cells(&sample_inputs(7, ChunkCoords { x: 3, z: -2 }));
    let b = generate_cells(&sample_inputs(7, ChunkCoords { x: 3, z: -2 }));
    assert_eq!(a.len(), b.len());
    for (ca, cb) in a.iter().zip(b.iter()) {
        assert_eq!(ca.block_id, cb.block_id);
        assert_eq!(ca.sun_light, cb.sun_light);
        assert_eq!(ca.block_light, cb.block_light);
    }
    // a different seed gives different terrain somewhere
    let c = generate_cells(&sample_inputs(8, ChunkCoords { x: 3, z: -2 }));
    assert!(a.iter().zip(c.iter()).any(|(x, y)| x.block_id != y.block_id));
}

#[test]
fn generate_chunk_installs_the_cells() {
    let mut world = World::new();
    world.load_chunk(ChunkCoords { x: 0, z: 0 });
    let inputs = flat_inputs(40, 20, Plant::Bare);
    generate_chunk(&mut world, ChunkCoords { x: 0, z: 0 }, &inputs);
    let surface = world
        .get_cell(BlockCoords { x: 3, y: 40, z: 3 })
        .expect("loaded");
    assert_eq!(surface.block_id, BlockId::Grass);
}

#[test]
fn generated_terrain_lights_and_meshes() {
    let mut world = World::new();
    world.load_chunk(ChunkCoords { x: 0, z: 0 });
    generate_chunk(
        &mut world,
        ChunkCoords { x: 0, z: 0 },
        &sample_inputs(0, ChunkCoords { x: 0, z: 0 }),
    );
    mycraft::light::recalculate_light(&mut world, ChunkCoords { x: 0, z: 0 });
    // the sky above the terrain holds full sunlight, the stone below none
    let c = world
        .get_cell(BlockCoords { x: 8, y: 255, z: 8 })
        .expect("loaded");
    assert_eq!(c.sun_light, 15);
    let deep = world.get_cell(BlockCoords { x: 8, y: 0, z: 8 }).expect("loaded");
    assert!(deep.sun_light == 0 || deep.block_id == BlockId::Air);
    // terrain produces geometry
    let meshes = mycraft::mesh::ChunkMeshes::generate(&world, ChunkCoords { x: 0, z: 0 });
    assert!(!meshes.solid_vertices.is_empty());
    assert_eq!(meshes.solid_vertices.len() % 4, 0);
}
