//! The lighting engine: full recompute, torch propagation, sunlight
//! shadows, bounds under edits, and idempotence at runtime.

use mycraft::blocks::BlockId;
use mycraft::coords::{BlockCoords, ChunkCoords};
use mycraft::light::recalculate_light;
use mycraft::world::World;

fn cell(world: &World, x: i32, y: i32, z: i32) -> mycraft::chunk::Cell {
    world
        .get_cell(BlockCoords { x, y, z })
        .expect("cell must be loaded")
}

fn lit_air_world() -> World {
    let mut world = World::new();
    world.load_chunk(ChunkCoords { x: 0, z: 0 });
    recalculate_light(&mut world, ChunkCoords { x: 0, z: 0 });
    world
}

#[test]
fn recompute_gives_full_sun_to_open_air() {
    let world = lit_air_world();
    assert_eq!(cell(&world, 0, 0, 0).sun_light, 15);
    assert_eq!(cell(&world, 8, 50, 8).sun_light, 15);
    assert_eq!(cell(&world, 15, 255, 15).sun_light, 15);
    assert_eq!(cell(&world, 8, 50, 8).block_light, 0);
}

#[test]
fn torch_propagation_along_a_row() {
    let mut world = lit_air_world();
    world.set_block(BlockCoords { x: 0, y: 10, z: 0 }, BlockId::Torch);
    assert_eq!(cell(&world, 0, 10, 0).block_light, 10);
    assert_eq!(cell(&world, 1, 10, 0).block_light, 9);
    assert_eq!(cell(&world, 5, 10, 0).block_light, 5);
    assert_eq!(cell(&world, 9, 10, 0).block_light, 1);
    assert_eq!(cell(&world, 10, 10, 0).block_light, 0);
    assert_eq!(cell(&world, 11, 10, 0).block_light, 0);
    // the light also spreads vertically and diagonally by steps
    assert_eq!(cell(&world, 0, 11, 0).block_light, 9);
    assert_eq!(cell(&world, 1, 11, 0).block_light, 8);
}

#[test]
fn sunlight_shadow_under_a_placed_stone() {
    let mut world = lit_air_world();
    // before the edit the whole column holds full sunlight
    assert_eq!(cell(&world, 8, 50, 8).sun_light, 15);
    assert_eq!(cell(&world, 8, 0, 8).sun_light, 15);
    world.set_block(BlockCoords { x: 8, y: 50, z: 8 }, BlockId::Stone);
    // the stone cell itself is dark
    assert_eq!(cell(&world, 8, 50, 8).sun_light, 0);
    // the column below decreases (it still borrows from lit neighbors)
    for y in 0..50 {
        assert!(cell(&world, 8, y, 8).sun_light < 15);
    }
    // a column far away is untouched
    assert_eq!(cell(&world, 0, 50, 0).sun_light, 15);
    assert_eq!(cell(&world, 0, 0, 0).sun_light, 15);
}

#[test]
fn removing_the_stone_reopens_the_shaft() {
    let mut world = lit_air_world();
    world.set_block(BlockCoords { x: 8, y: 50, z: 8 }, BlockId::Stone);
    world.set_block(BlockCoords { x: 8, y: 50, z: 8 }, BlockId::Air);
    assert_eq!(cell(&world, 8, 50, 8).sun_light, 15);
    assert_eq!(cell(&world, 8, 0, 8).sun_light, 15);
}

#[test]
fn light_bounds_hold_after_an_edit_sequence() {
    let mut world = lit_air_world();
    world.set_block(BlockCoords { x: 3, y: 40, z: 3 }, BlockId::Torch);
    world.set_block(BlockCoords { x: 4, y: 40, z: 3 }, BlockId::Stone);
    world.set_block(BlockCoords { x: 3, y: 41, z: 3 }, BlockId::Water);
    world.set_block(BlockCoords { x: 3, y: 40, z: 3 }, BlockId::Air);
    world.set_block(BlockCoords { x: 4, y: 40, z: 3 }, BlockId::Leaves);
    for x in 0..16 {
        for y in 35..45 {
            for z in 0..16 {
                let c = cell(&world, x, y, z);
                assert!(c.sun_light <= 15);
                assert!(c.block_light <= 15);
            }
        }
    }
}

#[test]
fn recompute_is_idempotent_at_runtime() {
    let mut world = World::new();
    world.load_chunk(ChunkCoords { x: 0, z: 0 });
    // a little terrain so the recompute has structure to converge on
    world.set_block(BlockCoords { x: 8, y: 50, z: 8 }, BlockId::Stone);
    world.set_block(BlockCoords { x: 8, y: 49, z: 8 }, BlockId::Torch);
    recalculate_light(&mut world, ChunkCoords { x: 0, z: 0 });
    let before: Vec<(u8, u8)> = (0..16)
        .flat_map(|x| (0..16).map(move |z| (x, z)))
        .flat_map(|(x, z)| (0..256).map(move |y| (x, y, z)))
        .map(|(x, y, z)| {
            let c = cell(&world, x, y, z);
            (c.sun_light, c.block_light)
        })
        .collect();
    recalculate_light(&mut world, ChunkCoords { x: 0, z: 0 });
    let after: Vec<(u8, u8)> = (0..16)
        .flat_map(|x| (0..16).map(move |z| (x, z)))
        .flat_map(|(x, z)| (0..256).map(move |y| (x, y, z)))
        .map(|(x, y, z)| {
            let c = cell(&world, x, y, z);
            (c.sun_light, c.block_light)
        })
        .collect();
    assert_eq!(before, after);
}

#[test]
fn torch_light_crosses_chunk_borders_on_recompute() {
    let mut world = World::new();
    world.load_chunk(ChunkCoords { x: 0, z: 0 });
    world.load_chunk(ChunkCoords { x: 1, z: 0 });
    recalculate_light(&mut world, ChunkCoords { x: 0, z: 0 });
    recalculate_light(&mut world, ChunkCoords { x: 1, z: 0 });
    // a torch near the border of the first chunk
    world.set_block(BlockCoords { x: 14, y: 10, z: 0 }, BlockId::Torch);
    // the flood crosses into the loaded neighbor chunk
    assert_eq!(cell(&world, 16, 10, 0).block_light, 8);
    assert_eq!(cell(&world, 17, 10, 0).block_light, 7);
}

#[test]
fn set_block_is_a_no_op_outside_the_world() {
    let mut world = lit_air_world();
    // above the ceiling, below the floor, and in an unloaded chunk
    world.set_block(BlockCoords { x: 0, y: 256, z: 0 }, BlockId::Stone);
    world.set_block(BlockCoords { x: 0, y: -1, z: 0 }, BlockId::Stone);
    world.set_block(BlockCoords { x: 100, y: 10, z: 0 }, BlockId::Stone);
    assert!(world.get_cell(BlockCoords { x: 0, y: 256, z: 0 }).is_none());
    assert!(world.get_cell(BlockCoords { x: 100, y: 10, z: 0 }).is_none());
    assert_eq!(cell(&world, 0, 0, 0).sun_light, 15);
}

#[test]
fn get_block_reports_unloaded_chunks_as_none() {
    let world = World::new();
    assert!(world.get_block(BlockCoords { x: 0, y: 10, z: 0 }).is_none());
}

#[test]
fn adjacent_cells_differ_by_at_most_one_after_recompute() {
    let mut world = World::new();
    world.load_chunk(ChunkCoords { x: 0, z: 0 });
    // a torch in a box of stone, with one opening
    for y in 58..63 {
        for x in 6..11 {
            for z in 6..11 {
                world.set_block(BlockCoords { x, y, z }, BlockId::Stone);
            }
        }
    }
    for y in 59..62 {
        for x in 7..10 {
            for z in 7..10 {
                world.set_block(BlockCoords { x, y, z }, BlockId::Air);
            }
        }
    }
    world.set_block(BlockCoords { x: 8, y: 60, z: 6 }, BlockId::Air);
    world.set_block(BlockCoords { x: 8, y: 60, z: 8 }, BlockId::Torch);
    recalculate_light(&mut world, ChunkCoords { x: 0, z: 0 });
    let transparent = |x: i32, y: i32, z: i32| {
        mycraft::blocks::Block::by_id(cell(&world, x, y, z).block_id).is_transparent()
    };
    for x in 0..16 {
        for y in 55..70 {
            for z in 0..15 {
                if transparent(x, y, z) && transparent(x, y, z + 1) {
                    let a = cell(&world, x, y, z);
                    let b = cell(&world, x, y, z + 1);
                    assert!((a.sun_light as i32 - b.sun_light as i32).abs() <= 1);
                    assert!((a.block_light as i32 - b.block_light as i32).abs() <= 1);
                }
            }
        }
    }
}
