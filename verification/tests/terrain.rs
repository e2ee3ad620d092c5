use symbia::block::{BlockType, ChunkCoord};
use symbia::terrain::{column_block, WorldGenerator, CHUNK_COLUMNS};

#[test]
fn column_layers() {
    // surface at 20: bedrock 0..=2, stone below 16, dirt 16..=18, grass 19, air from 20
    assert_eq!(column_block(0, 20), BlockType::Bedrock);
    assert_eq!(column_block(2, 20), BlockType::Bedrock);
    assert_eq!(column_block(3, 20), BlockType::Stone);
    assert_eq!(column_block(15, 20), BlockType::Stone);
    assert_eq!(column_block(16, 20), BlockType::Dirt);
    assert_eq!(column_block(18, 20), BlockType::Dirt);
    assert_eq!(column_block(19, 20), BlockType::Grass);
    assert_eq!(column_block(20, 20), BlockType::Air);
    assert_eq!(column_block(63, 20), BlockType::Air);
}

#[test]
fn column_layers_low_surface() {
    // bedrock wins over every other layer
    assert_eq!(column_block(1, 2), BlockType::Bedrock);
    assert_eq!(column_block(3, 4), BlockType::Grass);
    assert_eq!(column_block(3, 3), BlockType::Air);
    assert_eq!(column_block(10, i32::MIN), BlockType::Air);
    assert_eq!(column_block(10, i32::MAX), BlockType::Stone);
}

#[test]
fn generator_keeps_seed() {
    assert_eq!(WorldGenerator::new(42).seed, 42);
}

#[test]
fn column_positions_follow_chunk() {
    let pts = WorldGenerator::column_positions(ChunkCoord { x: 2, z: -1 });
    assert_eq!(pts.len(), CHUNK_COLUMNS);
    assert_eq!(pts[0], (32, -16));
    assert_eq!(pts[1], (33, -16));
    assert_eq!(pts[16], (32, -15));
    assert_eq!(pts[255], (47, -1));
}

#[test]
fn generate_chunk_from_heights() {
    let g = WorldGenerator::new(7);
    let mut heights = vec![20i32; CHUNK_COLUMNS];
    heights[5 + 3 * 16] = 30;
    let c = g.generate_chunk(ChunkCoord { x: 1, z: 1 }, &heights);
    assert_eq!(c.coord, ChunkCoord { x: 1, z: 1 });
    assert_eq!(c.blocks.len(), 16384);
    assert_eq!(c.get_block(0, 0, 0), Some(BlockType::Bedrock));
    assert_eq!(c.get_block(0, 19, 0), Some(BlockType::Grass));
    assert_eq!(c.get_block(0, 20, 0), Some(BlockType::Air));
    assert_eq!(c.get_block(5, 19, 3), Some(BlockType::Stone));
    assert_eq!(c.get_block(5, 29, 3), Some(BlockType::Grass));
    assert_eq!(c.get_block(5, 27, 3), Some(BlockType::Dirt));
    assert_eq!(c.get_block(5, 30, 3), Some(BlockType::Air));
}
