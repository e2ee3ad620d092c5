use symbia::block::{BlockCoord, BlockType, ChunkCoord};
use symbia::chunk_world::{
    block_to_place, chunk_coord_of, local_coord_of, BlockEdit, ChunkWorld, EditKind,
};
use symbia::terrain::CHUNK_COLUMNS;

fn flat_heights(h: i32) -> Vec<i32> {
    vec![h; CHUNK_COLUMNS]
}

fn world_with(coords: &[ChunkCoord], h: i32) -> ChunkWorld {
    let mut w = ChunkWorld::new(42);
    for c in coords {
        w.load_chunk(*c, &flat_heights(h));
    }
    w
}

fn cell(x: i32, y: i32, z: i32) -> BlockCoord {
    BlockCoord { x, y, z }
}

#[test]
fn world_split_is_euclidean() {
    assert_eq!(chunk_coord_of(0, 0), ChunkCoord { x: 0, z: 0 });
    assert_eq!(chunk_coord_of(15, 16), ChunkCoord { x: 0, z: 1 });
    assert_eq!(chunk_coord_of(-1, -16), ChunkCoord { x: -1, z: -1 });
    assert_eq!(chunk_coord_of(-17, 33), ChunkCoord { x: -2, z: 2 });
    assert_eq!(local_coord_of(-1), 15);
    assert_eq!(local_coord_of(-16), 0);
    assert_eq!(local_coord_of(17), 1);
    assert_eq!(chunk_coord_of(i32::MIN, i32::MAX), ChunkCoord { x: -134217728, z: 134217727 });
}

#[test]
fn new_world_is_empty() {
    let w = ChunkWorld::new(9);
    assert_eq!(w.generator.seed, 9);
    assert!(!w.contains_chunk(ChunkCoord { x: 0, z: 0 }));
    assert_eq!(w.get_block(0, 10, 0), BlockType::Air);
    assert!(!w.is_block_solid(0, 10, 0));
}

#[test]
fn load_and_read_blocks() {
    let w = world_with(&[ChunkCoord { x: -1, z: 0 }], 20);
    assert!(w.contains_chunk(ChunkCoord { x: -1, z: 0 }));
    assert_eq!(w.get_block(-1, 19, 5), BlockType::Grass);
    assert_eq!(w.get_block(-16, 0, 0), BlockType::Bedrock);
    assert_eq!(w.get_block(-16, 10, 15), BlockType::Stone);
    assert_eq!(w.get_block(-5, 20, 3), BlockType::Air);
    // the neighbouring chunk is not loaded
    assert_eq!(w.get_block(0, 10, 0), BlockType::Air);
    // above and below the world
    assert_eq!(w.get_block(-1, -1, 0), BlockType::Air);
    assert_eq!(w.get_block(-1, 64, 0), BlockType::Air);
    assert!(w.is_block_solid(-3, 5, 2));
    assert!(!w.is_block_solid(-3, 25, 2));
    assert_eq!(w.get_chunk(ChunkCoord { x: -1, z: 0 }).unwrap().coord, ChunkCoord { x: -1, z: 0 });
    assert!(w.get_chunk(ChunkCoord { x: 0, z: -1 }).is_none());
}

#[test]
fn remove_chunk_forgets_blocks() {
    let mut w = world_with(&[ChunkCoord { x: 0, z: 0 }, ChunkCoord { x: 1, z: 0 }], 20);
    assert!(w.remove_chunk(ChunkCoord { x: 0, z: 0 }));
    assert!(!w.remove_chunk(ChunkCoord { x: 0, z: 0 }));
    assert_eq!(w.get_block(3, 5, 3), BlockType::Air);
    assert_eq!(w.get_block(17, 5, 3), BlockType::Stone);
}

#[test]
fn modify_block_then_read_it_back() {
    let mut w = world_with(&[ChunkCoord { x: 0, z: 0 }], 20);
    let rebuild = w.modify_block(5, 30, 7, BlockType::Wood, &Vec::new());
    assert_eq!(rebuild, vec![ChunkCoord { x: 0, z: 0 }]);
    assert_eq!(w.get_block(5, 30, 7), BlockType::Wood);
    assert!(w.is_block_solid(5, 30, 7));
    assert_eq!(w.get_block(5, 31, 7), BlockType::Air);
    let rebuild = w.modify_block(5, 10, 7, BlockType::Air, &Vec::new());
    assert_eq!(rebuild, vec![ChunkCoord { x: 0, z: 0 }]);
    assert!(!w.is_block_solid(5, 10, 7));
    assert_eq!(w.get_block(5, 9, 7), BlockType::Stone);
}

#[test]
fn modify_block_outside_height_changes_nothing() {
    let mut w = world_with(&[ChunkCoord { x: 0, z: 0 }], 20);
    assert!(w.modify_block(1, -1, 1, BlockType::Stone, &Vec::new()).is_empty());
    assert!(w.modify_block(1, 64, 1, BlockType::Stone, &Vec::new()).is_empty());
    assert_eq!(w.get_block(1, 63, 1), BlockType::Air);
    assert!(!w.contains_chunk(ChunkCoord { x: 5, z: 5 }));
    assert!(w.modify_block(80, 64, 80, BlockType::Stone, &Vec::new()).is_empty());
    assert!(!w.contains_chunk(ChunkCoord { x: 5, z: 5 }));
}

#[test]
fn modify_block_generates_missing_chunk() {
    let mut w = ChunkWorld::new(1);
    let rebuild = w.modify_block(-20, 40, 3, BlockType::Leaves, &flat_heights(30));
    assert_eq!(rebuild, vec![ChunkCoord { x: -2, z: 0 }]);
    assert!(w.contains_chunk(ChunkCoord { x: -2, z: 0 }));
    assert_eq!(w.get_block(-20, 40, 3), BlockType::Leaves);
    assert_eq!(w.get_block(-20, 29, 3), BlockType::Grass);
    assert_eq!(w.get_block(-20, 0, 3), BlockType::Bedrock);
}

#[test]
fn modify_block_on_border_rebuilds_loaded_neighbours() {
    let loaded = [
        ChunkCoord { x: 0, z: 0 },
        ChunkCoord { x: -1, z: 0 },
        ChunkCoord { x: 1, z: 0 },
        ChunkCoord { x: 0, z: -1 },
    ];
    let mut w = world_with(&loaded, 20);
    // corner (0, 0): west and north neighbours
    assert_eq!(
        w.modify_block(0, 30, 0, BlockType::Stone, &Vec::new()),
        vec![ChunkCoord { x: 0, z: 0 }, ChunkCoord { x: -1, z: 0 }, ChunkCoord { x: 0, z: -1 }]
    );
    // corner (15, 15): east neighbour loaded, south one not
    assert_eq!(
        w.modify_block(15, 30, 15, BlockType::Stone, &Vec::new()),
        vec![ChunkCoord { x: 0, z: 0 }, ChunkCoord { x: 1, z: 0 }]
    );
    // inside: only the chunk itself
    assert_eq!(w.modify_block(7, 30, 7, BlockType::Stone, &Vec::new()), vec![ChunkCoord { x: 0, z: 0 }]);
}

#[test]
fn modify_block_leaves_other_blocks() {
    let mut w = world_with(&[ChunkCoord { x: 0, z: 0 }, ChunkCoord { x: 1, z: 0 }], 20);
    w.modify_block(16, 5, 0, BlockType::Air, &Vec::new());
    assert_eq!(w.get_block(16, 5, 0), BlockType::Air);
    assert_eq!(w.get_block(15, 5, 0), BlockType::Stone);
    assert_eq!(w.get_block(17, 5, 0), BlockType::Stone);
    assert_eq!(w.get_block(16, 4, 0), BlockType::Stone);
    assert_eq!(w.get_block(16, 5, 1), BlockType::Stone);
}

#[test]
fn first_solid_finds_hit_and_previous_cell() {
    let w = world_with(&[ChunkCoord { x: 0, z: 0 }], 20);
    let ray = vec![cell(2, 25, 2), cell(2, 22, 2), cell(2, 20, 2), cell(2, 19, 2), cell(2, 18, 2)];
    let hit = w.first_solid(&ray);
    assert_eq!(hit.hit, Some(cell(2, 19, 2)));
    assert_eq!(hit.prev, Some(cell(2, 20, 2)));
}

#[test]
fn first_solid_on_first_cell_has_no_previous() {
    let w = world_with(&[ChunkCoord { x: 0, z: 0 }], 20);
    let hit = w.first_solid(&vec![cell(1, 10, 1), cell(1, 30, 1)]);
    assert_eq!(hit.hit, Some(cell(1, 10, 1)));
    assert_eq!(hit.prev, None);
}

#[test]
fn first_solid_miss_keeps_last_cell() {
    let w = world_with(&[ChunkCoord { x: 0, z: 0 }], 20);
    let hit = w.first_solid(&vec![cell(1, 30, 1), cell(1, 29, 1), cell(40, 5, 40)]);
    assert_eq!(hit.hit, None);
    assert_eq!(hit.prev, Some(cell(40, 5, 40)));
    let empty = w.first_solid(&Vec::new());
    assert_eq!(empty.hit, None);
    assert_eq!(empty.prev, None);
}

#[test]
fn box_query_finds_walls() {
    let mut w = world_with(&[ChunkCoord { x: 0, z: 0 }], 20);
    assert!(!w.any_solid_in_box(cell(3, 20, 3), cell(5, 25, 5)));
    assert!(w.any_solid_in_box(cell(3, 19, 3), cell(5, 25, 5)));
    w.modify_block(4, 23, 5, BlockType::Wood, &Vec::new());
    assert!(w.any_solid_in_box(cell(3, 20, 3), cell(5, 25, 5)));
    assert!(!w.any_solid_in_box(cell(3, 20, 3), cell(5, 25, 4)));
    // an empty box holds nothing
    assert!(!w.any_solid_in_box(cell(5, 0, 5), cell(4, 10, 6)));
    // boxes reaching past the world edges
    assert!(!w.any_solid_in_box(cell(3, 64, 3), cell(5, 70, 5)));
    assert!(w.any_solid_in_box(cell(3, -5, 3), cell(3, 0, 3)));
}

#[test]
fn plan_interaction_breaks_and_places() {
    let w = world_with(&[ChunkCoord { x: 0, z: 0 }], 20);
    let ray = vec![cell(2, 21, 2), cell(2, 20, 2), cell(2, 19, 2)];
    assert_eq!(
        w.plan_interaction(&ray, true, false),
        vec![BlockEdit { x: 2, y: 19, z: 2, block: BlockType::Air, kind: EditKind::Break }]
    );
    assert_eq!(
        w.plan_interaction(&ray, false, true),
        vec![BlockEdit { x: 2, y: 20, z: 2, block: BlockType::Grass, kind: EditKind::Place }]
    );
    assert_eq!(w.plan_interaction(&ray, true, true).len(), 2);
    assert!(w.plan_interaction(&ray, false, false).is_empty());
}

#[test]
fn plan_interaction_without_hit() {
    let w = world_with(&[ChunkCoord { x: 0, z: 0 }], 20);
    let ray = vec![cell(2, 40, 2), cell(2, 39, 2)];
    assert!(w.plan_interaction(&ray, true, false).is_empty());
    assert_eq!(
        w.plan_interaction(&ray, false, true),
        vec![BlockEdit { x: 2, y: 39, z: 2, block: BlockType::Grass, kind: EditKind::Place }]
    );
    assert!(w.plan_interaction(&Vec::new(), true, true).is_empty());
}

#[test]
fn placed_block_depends_on_height() {
    assert_eq!(block_to_place(0), BlockType::Stone);
    assert_eq!(block_to_place(-3), BlockType::Stone);
    assert_eq!(block_to_place(1), BlockType::Grass);
}
