use symbia::atlas::{atlas_pixel, block_atlas_rgba, ATLAS_BYTES};
use symbia::block::{BlockType, ChunkCoord, ChunkData};
use symbia::mesh::{build_chunk_mesh, tile_index, Face, FaceDir};

fn chunk_with(cells: &[(usize, usize, usize, BlockType)]) -> ChunkData {
    let mut c = ChunkData::empty(ChunkCoord { x: 0, z: 0 });
    for (x, y, z, b) in cells {
        let i = c.index(*x, *y, *z);
        c.blocks[i] = *b;
    }
    c
}

#[test]
fn empty_chunk_has_no_faces() {
    let m = build_chunk_mesh(&ChunkData::empty(ChunkCoord { x: 0, z: 0 }));
    assert!(m.faces.is_empty());
    assert!(m.indices.is_empty());
}

#[test]
fn lone_block_shows_six_faces() {
    let m = build_chunk_mesh(&chunk_with(&[(3, 4, 5, BlockType::Grass)]));
    let dirs: Vec<FaceDir> = m.faces.iter().map(|f| f.dir).collect();
    assert_eq!(dirs, vec![FaceDir::Up, FaceDir::Down, FaceDir::North, FaceDir::South, FaceDir::West, FaceDir::East]);
    let tiles: Vec<usize> = m.faces.iter().map(|f| f.tile).collect();
    assert_eq!(tiles, vec![1, 3, 0, 0, 0, 0]);
    assert!(m.faces.iter().all(|f| (f.x, f.y, f.z) == (3, 4, 5)));
    assert_eq!(m.indices, vec![0, 1, 2, 0, 2, 3, 4, 5, 6, 4, 6, 7, 8, 9, 10, 8, 10, 11, 12, 13, 14, 12, 14, 15, 16, 17, 18, 16, 18, 19, 20, 21, 22, 20, 22, 23]);
}

#[test]
fn touching_blocks_hide_shared_faces() {
    let m = build_chunk_mesh(&chunk_with(&[(3, 4, 5, BlockType::Stone), (3, 5, 5, BlockType::Stone)]));
    assert_eq!(m.faces.len(), 10);
    assert!(!m.faces.contains(&Face { x: 3, y: 4, z: 5, dir: FaceDir::Up, tile: 4 }));
    assert!(!m.faces.contains(&Face { x: 3, y: 5, z: 5, dir: FaceDir::Down, tile: 4 }));
    assert!(m.faces.contains(&Face { x: 3, y: 5, z: 5, dir: FaceDir::Up, tile: 4 }));
    assert_eq!(m.indices.len(), 60);
}

#[test]
fn chunk_edges_count_as_air() {
    let m = build_chunk_mesh(&chunk_with(&[(0, 0, 0, BlockType::Bedrock)]));
    assert_eq!(m.faces.len(), 6);
    assert_eq!(m.faces[0].tile, 8);
}

#[test]
fn meshing_order_x_then_z_then_y() {
    let m = build_chunk_mesh(&chunk_with(&[(1, 0, 0, BlockType::Dirt), (0, 5, 1, BlockType::Wood), (0, 2, 1, BlockType::Leaves)]));
    let firsts: Vec<(i32, i32, i32)> = m.faces.iter().step_by(6).map(|f| (f.x, f.y, f.z)).collect();
    assert_eq!(firsts, vec![(0, 2, 1), (0, 5, 1), (1, 0, 0)]);
}

#[test]
fn full_layer_shows_only_top_bottom_and_rim() {
    let mut cells = Vec::new();
    for x in 0..16 {
        for z in 0..16 {
            cells.push((x, 10, z, BlockType::Stone));
        }
    }
    let m = build_chunk_mesh(&chunk_with(&cells));
    // 256 tops, 256 bottoms and 4 * 16 sides on the rim
    assert_eq!(m.faces.len(), 256 + 256 + 64);
}

#[test]
fn tile_table() {
    assert_eq!(tile_index(BlockType::Grass, true, false), 1);
    assert_eq!(tile_index(BlockType::Grass, false, true), 3);
    assert_eq!(tile_index(BlockType::Grass, false, false), 0);
    assert_eq!(tile_index(BlockType::Dirt, true, false), 3);
    assert_eq!(tile_index(BlockType::Stone, false, false), 4);
    assert_eq!(tile_index(BlockType::Bedrock, false, false), 8);
    assert_eq!(tile_index(BlockType::Wood, false, false), 10);
    assert_eq!(tile_index(BlockType::Leaves, false, false), 12);
    assert_eq!(tile_index(BlockType::Air, true, false), 0);
}

#[test]
fn face_geometry() {
    let up = Face { x: 0, y: 0, z: 0, dir: FaceDir::Up, tile: 1 };
    assert_eq!(up.normal(), (0, 1, 0));
    assert_eq!(up.corner_offsets(), [(0, 1, 1), (1, 1, 1), (1, 1, 0), (0, 1, 0)]);
    assert_eq!(up.atlas_cell(), (1, 0));
    let east = Face { x: 0, y: 0, z: 0, dir: FaceDir::East, tile: 12 };
    assert_eq!(east.normal(), (1, 0, 0));
    assert_eq!(east.corner_offsets(), [(1, 0, 1), (1, 0, 0), (1, 1, 0), (1, 1, 1)]);
    assert_eq!(east.atlas_cell(), (0, 3));
}

#[test]
fn atlas_tiles() {
    assert_eq!(atlas_pixel(0, 0), (34, 139, 34));
    assert_eq!(atlas_pixel(10, 63), (34, 139, 34));
    assert_eq!(atlas_pixel(10, 64), (101, 67, 33));
    assert_eq!(atlas_pixel(300, 200), (34, 139, 34));
    assert_eq!(atlas_pixel(600, 5), (50, 150, 50));
    assert_eq!(atlas_pixel(300, 300), (128, 128, 128));
    assert_eq!(atlas_pixel(700, 700), (90, 50, 20));
    assert_eq!(atlas_pixel(1023, 1023), (240, 240, 240));
    assert_eq!(atlas_pixel(600, 900), (255, 255, 255));
}

#[test]
fn atlas_speckles() {
    // dirt tile pixel (1, 1): n = (13 ^ 17) & 31 = 28
    assert_eq!(atlas_pixel(768 + 1, 1), (129, 95, 61));
    // stone tile pixel (2, 0): n = 26 & 31 = 26
    assert_eq!(atlas_pixel(2, 256), (146, 146, 151));
    // leaves tile pixel (0, 0): n = 0
    assert_eq!(atlas_pixel(0, 768), (20, 120, 40));
}

#[test]
fn atlas_bytes() {
    let data = block_atlas_rgba();
    assert_eq!(data.len(), ATLAS_BYTES);
    assert_eq!(&data[0..4], &[34, 139, 34, 255]);
    let p = 300 * 1024 + 300;
    assert_eq!(&data[4 * p..4 * p + 4], &[128, 128, 128, 255]);
    assert!(data.chunks(4).all(|px| px[3] == 255));
}
