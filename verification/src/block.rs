//! Block kinds, coordinates and the block storage of one chunk.

use vstd::prelude::*;

verus! {

/// Width of a chunk along the x axis, in blocks.
pub const CHUNK_SIZE_X: i32 = 16;

/// Height of a chunk along the y axis, in blocks.
pub const CHUNK_SIZE_Y: i32 = 64;

/// Depth of a chunk along the z axis, in blocks.
pub const CHUNK_SIZE_Z: i32 = 16;

/// Number of blocks in one chunk.
pub const CHUNK_VOLUME: usize = 16384;

/// The kinds of block a world is made of.
#[derive(Debug, Clone, Copy, PartialEq, Eq, Hash, Structural)]
pub enum BlockType {
    Air,
    Stone,
    Dirt,
    Grass,
    Wood,
    Leaves,
    Bedrock,
}

/// The wire id of a block kind.
pub open spec fn block_id(b: BlockType) -> u8 {
    match b {
        BlockType::Air => 0,
        BlockType::Stone => 1,
        BlockType::Dirt => 2,
        BlockType::Grass => 3,
        BlockType::Wood => 4,
        BlockType::Leaves => 5,
        BlockType::Bedrock => 6,
    }
}

/// The block kind a wire id stands for, if any.
pub open spec fn block_from_id(id: u8) -> Option<BlockType> {
    if id == 0 {
        Some(BlockType::Air)
    } else if id == 1 {
        Some(BlockType::Stone)
    } else if id == 2 {
        Some(BlockType::Dirt)
    } else if id == 3 {
        Some(BlockType::Grass)
    } else if id == 4 {
        Some(BlockType::Wood)
    } else if id == 5 {
        Some(BlockType::Leaves)
    } else if id == 6 {
        Some(BlockType::Bedrock)
    } else {
        None
    }
}

impl BlockType {
    /// Every block but air is solid.
    pub fn is_solid(&self) -> (r: bool)
        ensures
            r == !(*self is Air),
    {
        !matches!(self, BlockType::Air)
    }

    /// The block kind with wire id `id`; ids above 6 name no block.
    pub fn from_u8(id: u8) -> (r: Option<Self>)
        ensures
            r == block_from_id(id),
    {
        match id {
            0 => Some(BlockType::Air),
            1 => Some(BlockType::Stone),
            2 => Some(BlockType::Dirt),
            3 => Some(BlockType::Grass),
            4 => Some(BlockType::Wood),
            5 => Some(BlockType::Leaves),
            6 => Some(BlockType::Bedrock),
            _ => None,
        }
    }

    /// The wire id of this block kind.
    pub fn to_u8(&self) -> (r: u8)
        ensures
            r == block_id(*self),
    {
        match self {
            BlockType::Air => 0,
            BlockType::Stone => 1,
            BlockType::Dirt => 2,
            BlockType::Grass => 3,
            BlockType::Wood => 4,
            BlockType::Leaves => 5,
            BlockType::Bedrock => 6,
        }
    }
}

/// Decoding the wire id of a block kind gives that kind back.
pub proof fn lemma_block_id_roundtrip(b: BlockType)
    ensures
        block_from_id(block_id(b)) == Some(b),
{
}

/// A wire id names a block kind exactly when it is below 7, and then it is
/// that kind's id.
pub proof fn lemma_block_from_id_valid(id: u8)
    ensures
        block_from_id(id) is Some <==> id < 7,
        block_from_id(id) matches Some(b) ==> block_id(b) == id,
{
}

/// A block position in world coordinates.
#[derive(Debug, Clone, Copy, PartialEq, Eq, Hash, Structural)]
pub struct BlockCoord {
    pub x: i32,
    pub y: i32,
    pub z: i32,
}

/// The position of a chunk on the horizontal chunk grid.
#[derive(Debug, Clone, Copy, PartialEq, Eq, Hash, Structural)]
pub struct ChunkCoord {
    pub x: i32,
    pub z: i32,
}

/// Whether a local position lies inside a chunk.
pub open spec fn in_chunk(x: int, y: int, z: int) -> bool {
    &&& 0 <= x < CHUNK_SIZE_X
    &&& 0 <= y < CHUNK_SIZE_Y
    &&& 0 <= z < CHUNK_SIZE_Z
}

/// Where the block at local position (x, y, z) is stored in a chunk:
/// x varies fastest, then z, then y.
pub open spec fn local_index(x: int, y: int, z: int) -> int {
    x + z * CHUNK_SIZE_X + y * (CHUNK_SIZE_X * CHUNK_SIZE_Z)
}

/// Local x of the block stored at `i`.
pub open spec fn index_x(i: int) -> int {
    i % 16
}

/// Local z of the block stored at `i`.
pub open spec fn index_z(i: int) -> int {
    (i / 16) % 16
}

/// Local y of the block stored at `i`.
pub open spec fn index_y(i: int) -> int {
    i / 256
}

/// The storage layout is a bijection between local positions and
/// `0..CHUNK_VOLUME`.
pub proof fn lemma_local_index_bijective(x: int, y: int, z: int, i: int)
    ensures
        in_chunk(x, y, z) ==> 0 <= local_index(x, y, z) < CHUNK_VOLUME,
        in_chunk(x, y, z) ==> index_x(local_index(x, y, z)) == x && index_y(
            local_index(x, y, z),
        ) == y && index_z(local_index(x, y, z)) == z,
        0 <= i < CHUNK_VOLUME ==> in_chunk(index_x(i), index_y(i), index_z(i)) && local_index(
            index_x(i),
            index_y(i),
            index_z(i),
        ) == i,
{
    assert(in_chunk(x, y, z) ==> index_x(local_index(x, y, z)) == x && index_y(
        local_index(x, y, z),
    ) == y && index_z(local_index(x, y, z)) == z) by (nonlinear_arith);
    assert(0 <= i < CHUNK_VOLUME ==> in_chunk(index_x(i), index_y(i), index_z(i)) && local_index(
        index_x(i),
        index_y(i),
        index_z(i),
    ) == i) by (nonlinear_arith);
}

/// The blocks of one chunk.
#[derive(Debug, Clone)]
pub struct ChunkData {
    pub coord: ChunkCoord,
    pub blocks: Vec<BlockType>,
}

impl ChunkData {
    /// A chunk holds exactly one block per local position.
    pub open spec fn wf(&self) -> bool {
        self.blocks.len() == CHUNK_VOLUME
    }

    /// The block at local position (x, y, z), reading a position outside
    /// the chunk as air.
    pub open spec fn block(&self, x: int, y: int, z: int) -> BlockType {
        if in_chunk(x, y, z) {
            self.blocks@[local_index(x, y, z)]
        } else {
            BlockType::Air
        }
    }

    /// A chunk at `coord` made of air only.
    pub fn empty(coord: ChunkCoord) -> (r: Self)
        ensures
            r.coord == coord,
            r.wf(),
            forall|i: int| 0 <= i < CHUNK_VOLUME ==> r.blocks@[i] == BlockType::Air,
    {
        let total = CHUNK_VOLUME;
        let mut blocks: Vec<BlockType> = Vec::with_capacity(total);
        let mut i: usize = 0;
        while i < total
            invariant
                i <= total,
                total == CHUNK_VOLUME,
                blocks.len() == i,
                forall|j: int| 0 <= j < i ==> blocks@[j] == BlockType::Air,
            decreases total - i,
        {
            blocks.push(BlockType::Air);
            i = i + 1;
        }
        ChunkData { coord, blocks }
    }

    /// Where the block at local position (x, y, z) is stored.
    pub fn index(&self, x: usize, y: usize, z: usize) -> (r: usize)
        requires
            local_index(x as int, y as int, z as int) <= usize::MAX,
        ensures
            r == local_index(x as int, y as int, z as int),
    {
        x + z * (CHUNK_SIZE_X as usize) + y * ((CHUNK_SIZE_X as usize) * (CHUNK_SIZE_Z as usize))
    }

    /// The block at local position (x, y, z), or `None` outside the chunk.
    pub fn get_block(&self, x: usize, y: usize, z: usize) -> (r: Option<BlockType>)
        requires
            in_chunk(x as int, y as int, z as int) ==> local_index(x as int, y as int, z as int)
                < self.blocks.len(),
        ensures
            r == (if in_chunk(x as int, y as int, z as int) {
                Some(self.blocks@[local_index(x as int, y as int, z as int)])
            } else {
                None
            }),
    {
        if x < CHUNK_SIZE_X as usize && y < CHUNK_SIZE_Y as usize && z < CHUNK_SIZE_Z as usize {
            Some(self.blocks[self.index(x, y, z)])
        } else {
            None
        }
    }
}

/// The wire ids peers exchange: air 0, stone 1, dirt 2, grass 3, wood 4,
/// leaves 5, bedrock 6.
pub proof fn lemma_wire_ids()
    ensures
        block_id(BlockType::Air) == 0,
        block_id(BlockType::Stone) == 1,
        block_id(BlockType::Dirt) == 2,
        block_id(BlockType::Grass) == 3,
        block_id(BlockType::Wood) == 4,
        block_id(BlockType::Leaves) == 5,
        block_id(BlockType::Bedrock) == 6,
        forall|a: BlockType, b: BlockType| a != b ==> block_id(a) != block_id(b),
{
}

} // verus!
