use symbia::block::{BlockCoord, BlockType, ChunkCoord, ChunkData, CHUNK_SIZE_X, CHUNK_SIZE_Y, CHUNK_SIZE_Z, CHUNK_VOLUME};

#[test]
fn chunk_dimensions() {
    assert_eq!(CHUNK_SIZE_X, 16);
    assert_eq!(CHUNK_SIZE_Y, 64);
    assert_eq!(CHUNK_SIZE_Z, 16);
    assert_eq!(CHUNK_VOLUME, (CHUNK_SIZE_X * CHUNK_SIZE_Y * CHUNK_SIZE_Z) as usize);
}

#[test]
fn only_air_is_not_solid() {
    assert!(!BlockType::Air.is_solid());
    for b in [BlockType::Stone, BlockType::Dirt, BlockType::Grass, BlockType::Wood, BlockType::Leaves, BlockType::Bedrock] {
        assert!(b.is_solid());
    }
}

#[test]
fn from_u8_maps_every_id() {
    assert_eq!(BlockType::from_u8(0), Some(BlockType::Air));
    assert_eq!(BlockType::from_u8(1), Some(BlockType::Stone));
    assert_eq!(BlockType::from_u8(2), Some(BlockType::Dirt));
    assert_eq!(BlockType::from_u8(3), Some(BlockType::Grass));
    assert_eq!(BlockType::from_u8(4), Some(BlockType::Wood));
    assert_eq!(BlockType::from_u8(5), Some(BlockType::Leaves));
    assert_eq!(BlockType::from_u8(6), Some(BlockType::Bedrock));
}

#[test]
fn from_u8_rejects_unknown_ids() {
    assert_eq!(BlockType::from_u8(7), None);
    assert_eq!(BlockType::from_u8(42), None);
    assert_eq!(BlockType::from_u8(255), None);
}

#[test]
fn wire_id_roundtrip() {
    for id in 0u8..7 {
        let b = BlockType::from_u8(id).unwrap();
        assert_eq!(b.to_u8(), id);
        assert_eq!(BlockType::from_u8(b.to_u8()), Some(b));
    }
    assert_eq!(BlockType::Grass.to_u8(), 3);
    assert_eq!(BlockType::Bedrock.to_u8(), 6);
}

#[test]
fn empty_chunk_is_all_air() {
    let c = ChunkData::empty(ChunkCoord { x: 3, z: -2 });
    assert_eq!(c.coord, ChunkCoord { x: 3, z: -2 });
    assert_eq!(c.blocks.len(), 16384);
    assert!(c.blocks.iter().all(|b| *b == BlockType::Air));
}

#[test]
fn index_layout_x_then_z_then_y() {
    let c = ChunkData::empty(ChunkCoord { x: 0, z: 0 });
    assert_eq!(c.index(0, 0, 0), 0);
    assert_eq!(c.index(1, 0, 0), 1);
    assert_eq!(c.index(0, 0, 1), 16);
    assert_eq!(c.index(0, 1, 0), 256);
    assert_eq!(c.index(15, 63, 15), 16383);
    assert_eq!(c.index(5, 10, 7), 5 + 7 * 16 + 10 * 256);
}

#[test]
fn get_block_inside_and_outside() {
    let mut c = ChunkData::empty(ChunkCoord { x: 0, z: 0 });
    let i = c.index(2, 3, 4);
    c.blocks[i] = BlockType::Wood;
    assert_eq!(c.get_block(2, 3, 4), Some(BlockType::Wood));
    assert_eq!(c.get_block(2, 3, 5), Some(BlockType::Air));
    assert_eq!(c.get_block(16, 0, 0), None);
    assert_eq!(c.get_block(0, 64, 0), None);
    assert_eq!(c.get_block(0, 0, 16), None);
}

#[test]
fn coords_compare_by_fields() {
    assert_eq!(BlockCoord { x: 1, y: 2, z: 3 }, BlockCoord { x: 1, y: 2, z: 3 });
    assert_ne!(BlockCoord { x: 1, y: 2, z: 3 }, BlockCoord { x: 1, y: 2, z: 4 });
    assert_ne!(ChunkCoord { x: 1, z: 2 }, ChunkCoord { x: 2, z: 1 });
}
