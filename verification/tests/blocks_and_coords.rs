//! The block table and the coordinate mapping.

use mycraft::blocks::{Block, BlockId};
use mycraft::coords::{get_chunk_coords, to_local_chunk_coords, BlockCoords};

#[test]
fn block_transparency_follows_shape() {
    assert!(Block::by_id(BlockId::Air).is_transparent());
    assert!(!Block::by_id(BlockId::Stone).is_transparent());
    assert!(!Block::by_id(BlockId::Grass).is_transparent());
    assert!(!Block::by_id(BlockId::Dirt).is_transparent());
    assert!(!Block::by_id(BlockId::Trunk).is_transparent());
    assert!(!Block::by_id(BlockId::Leaves).is_transparent());
    assert!(Block::by_id(BlockId::Water).is_transparent());
    assert!(!Block::by_id(BlockId::Sand).is_transparent());
    assert!(!Block::by_id(BlockId::Planks).is_transparent());
    assert!(Block::by_id(BlockId::RedFlower).is_transparent());
    assert!(Block::by_id(BlockId::YellowFlower).is_transparent());
    assert!(Block::by_id(BlockId::Torch).is_transparent());
}

#[test]
fn only_torches_emit_light() {
    assert_eq!(Block::by_id(BlockId::Torch).light_level(), 10);
    assert_eq!(Block::by_id(BlockId::Air).light_level(), 0);
    assert_eq!(Block::by_id(BlockId::Stone).light_level(), 0);
    assert_eq!(Block::by_id(BlockId::Water).light_level(), 0);
    assert_eq!(Block::by_id(BlockId::RedFlower).light_level(), 0);
}

#[test]
fn grass_has_distinct_top_and_bottom() {
    match Block::by_id(BlockId::Grass) {
        Block::Solid { texture_ids } => {
            assert_eq!(texture_ids.pos_y, 1);
            assert_eq!(texture_ids.neg_y, 3);
            assert_eq!(texture_ids.neg_x, 2);
        }
        _ => panic!("grass must be solid"),
    }
}

#[test]
fn negative_coordinates_map_to_negative_chunk() {
    let (chunk, local) = to_local_chunk_coords(BlockCoords { x: -1, y: 5, z: -1 });
    assert_eq!(chunk.x, -1);
    assert_eq!(chunk.z, -1);
    assert_eq!(local.x, 15);
    assert_eq!(local.z, 15);
    assert_eq!(local.y, 5);
}

#[test]
fn coordinate_round_trip_on_many_values() {
    for &g in &[-33i32, -17, -16, -15, -1, 0, 1, 15, 16, 17, 31, 32, 1000, -1000] {
        let (chunk, local) = to_local_chunk_coords(BlockCoords { x: g, y: 0, z: g });
        assert_eq!(16 * chunk.x + local.x, g);
        assert_eq!(16 * chunk.z + local.z, g);
        assert!((0..16).contains(&local.x));
        assert!((0..16).contains(&local.z));
    }
}

#[test]
fn chunk_of_block_matches_local_split() {
    let c = get_chunk_coords(BlockCoords { x: -20, y: 0, z: 35 });
    assert_eq!(c.x, -2);
    assert_eq!(c.z, 2);
}
