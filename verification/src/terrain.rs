//! Terrain layering: how a chunk is filled from the surface height of each
//! of its columns.

use vstd::prelude::*;
use crate::block::{
    BlockType, ChunkCoord, ChunkData, CHUNK_SIZE_X, CHUNK_SIZE_Y, CHUNK_SIZE_Z, CHUNK_VOLUME,
    local_index, index_x, index_y, index_z, in_chunk, lemma_local_index_bijective,
};

verus! {

/// Number of block columns in one chunk.
pub const CHUNK_COLUMNS: usize = 256;

/// The block at height `wy` of a column whose surface height is `surface_y`:
/// bedrock at the bottom three layers, stone up to five below the surface,
/// three layers of dirt, one of grass, air above.
pub open spec fn layer_block(wy: int, surface_y: int) -> BlockType {
    if wy <= 2 {
        BlockType::Bedrock
    } else if wy < surface_y - 4 {
        BlockType::Stone
    } else if wy < surface_y - 1 {
        BlockType::Dirt
    } else if wy == surface_y - 1 {
        BlockType::Grass
    } else {
        BlockType::Air
    }
}

/// Which column of a chunk the local position (lx, lz) belongs to.
pub open spec fn column_index(lx: int, lz: int) -> int {
    lx + lz * CHUNK_SIZE_X
}

/// The blocks of a chunk generated from the surface heights of its columns.
pub open spec fn generated_blocks(heights: Seq<i32>) -> Seq<BlockType> {
    Seq::new(
        CHUNK_VOLUME as nat,
        |i: int| layer_block(index_y(i), heights[column_index(index_x(i), index_z(i))] as int),
    )
}

/// The world position of the column (lx, lz) of the chunk at `coord`.
pub open spec fn column_world_xz(coord: ChunkCoord, lx: int, lz: int) -> (int, int) {
    (coord.x * CHUNK_SIZE_X + lx, coord.z * CHUNK_SIZE_Z + lz)
}

/// Whether the world positions of every column of the chunk at `coord` fit
/// in an `i32`.
pub open spec fn chunk_columns_fit(coord: ChunkCoord) -> bool {
    &&& i32::MIN <= coord.x * CHUNK_SIZE_X
    &&& coord.x * CHUNK_SIZE_X + (CHUNK_SIZE_X - 1) <= i32::MAX
    &&& i32::MIN <= coord.z * CHUNK_SIZE_Z
    &&& coord.z * CHUNK_SIZE_Z + (CHUNK_SIZE_Z - 1) <= i32::MAX
}

/// The block of a column at a height, as `layer_block` states it.
pub fn column_block(wy: i32, surface_y: i32) -> (r: BlockType)
    requires
        0 <= wy < CHUNK_SIZE_Y,
    ensures
        r == layer_block(wy as int, surface_y as int),
{
    let s = surface_y as i64;
    let y = wy as i64;
    if y <= 2 {
        BlockType::Bedrock
    } else if y < s - 4 {
        BlockType::Stone
    } else if y < s - 1 {
        BlockType::Dirt
    } else if y == s - 1 {
        BlockType::Grass
    } else {
        BlockType::Air
    }
}

/// The terrain generator of a world.  Its seed drives the height noise that
/// gives each column its surface height.
pub struct WorldGenerator {
    pub seed: u32,
}

impl WorldGenerator {
    /// A generator for the world with this seed.
    pub fn new(seed: u32) -> (r: Self)
        ensures
            r.seed == seed,
    {
        WorldGenerator { seed }
    }

    /// The world (x, z) of each column of the chunk at `coord`, in column
    /// order: the height noise is sampled there.
    pub fn column_positions(coord: ChunkCoord) -> (r: Vec<(i32, i32)>)
        requires
            chunk_columns_fit(coord),
        ensures
            r.len() == CHUNK_COLUMNS,
            forall|lx: int, lz: int|
                0 <= lx < CHUNK_SIZE_X && 0 <= lz < CHUNK_SIZE_Z ==> {
                    let p = #[trigger] r@[column_index(lx, lz)];
                    (p.0 as int, p.1 as int) == column_world_xz(coord, lx, lz)
                },
    {
        let mut r: Vec<(i32, i32)> = Vec::with_capacity(CHUNK_COLUMNS);
        let base_x = coord.x * CHUNK_SIZE_X;
        let base_z = coord.z * CHUNK_SIZE_Z;
        let mut i: usize = 0;
        while i < CHUNK_COLUMNS
            invariant
                i <= CHUNK_COLUMNS,
                r.len() == i,
                base_x == coord.x * CHUNK_SIZE_X,
                base_z == coord.z * CHUNK_SIZE_Z,
                chunk_columns_fit(coord),
                forall|j: int|
                    0 <= j < i ==> {
                        let p = #[trigger] r@[j];
                        p.0 == base_x + j % 16 && p.1 == base_z + j / 16
                    },
            decreases CHUNK_COLUMNS - i,
        {
            let lx = (i % 16) as i32;
            let lz = (i / 16) as i32;
            r.push((base_x + lx, base_z + lz));
            i = i + 1;
        }
        assert forall|lx: int, lz: int|
            0 <= lx < CHUNK_SIZE_X && 0 <= lz < CHUNK_SIZE_Z implies {
                let p = #[trigger] r@[column_index(lx, lz)];
                (p.0 as int, p.1 as int) == column_world_xz(coord, lx, lz)
            } by {
            let j = column_index(lx, lz);
            assert(j % 16 == lx && j / 16 == lz) by (nonlinear_arith)
                requires
                    j == lx + lz * 16,
                    0 <= lx < 16,
                    0 <= lz < 16,
            ;
        }
        r
    }

    /// The chunk at `coord`, filled column by column from `heights`, the
    /// surface height of each column in column order.
    pub fn generate_chunk(&self, coord: ChunkCoord, heights: &Vec<i32>) -> (r: ChunkData)
        requires
            heights.len() == CHUNK_COLUMNS,
        ensures
            r.coord == coord,
            r.wf(),
            r.blocks@ == generated_blocks(heights@),
    {
        let mut chunk = ChunkData::empty(coord);
        let mut i: usize = 0;
        while i < CHUNK_VOLUME
            invariant
                i <= CHUNK_VOLUME,
                heights.len() == CHUNK_COLUMNS,
                chunk.coord == coord,
                chunk.blocks.len() == CHUNK_VOLUME,
                forall|j: int|
                    0 <= j < i ==> #[trigger] chunk.blocks@[j] == generated_blocks(heights@)[j],
            decreases CHUNK_VOLUME - i,
        {
            let lx = i % 16;
            let lz = (i / 16) % 16;
            let ly = i / 256;
            assert(lx + lz * 16 < 256) by (nonlinear_arith)
                requires
                    lx < 16,
                    lz < 16,
            ;
            let surface_y = heights[lx + lz * 16];
            let b = column_block(ly as i32, surface_y);
            chunk.blocks.set(i, b);
            i = i + 1;
        }
        assert(chunk.blocks@ =~= generated_blocks(heights@));
        chunk
    }
}

/// Each block of a generated chunk is the layer block of its own column at
/// its own height.
pub proof fn lemma_generated_block(heights: Seq<i32>, lx: int, ly: int, lz: int)
    requires
        heights.len() == CHUNK_COLUMNS,
        in_chunk(lx, ly, lz),
    ensures
        generated_blocks(heights)[local_index(lx, ly, lz)] == layer_block(
            ly,
            heights[column_index(lx, lz)] as int,
        ),
{
    lemma_local_index_bijective(lx, ly, lz, 0);
}

/// Every column of a generated chunk has bedrock at its three bottom layers,
/// whatever its surface height.
pub proof fn lemma_bedrock_floor(heights: Seq<i32>, lx: int, ly: int, lz: int)
    requires
        heights.len() == CHUNK_COLUMNS,
        in_chunk(lx, ly, lz),
        ly <= 2,
    ensures
        generated_blocks(heights)[local_index(lx, ly, lz)] == BlockType::Bedrock,
{
    lemma_generated_block(heights, lx, ly, lz);
}

/// In a generated column the grass layer lies right under the surface, and
/// everything at or above the surface is air.
pub proof fn lemma_surface_layers(heights: Seq<i32>, lx: int, ly: int, lz: int)
    requires
        heights.len() == CHUNK_COLUMNS,
        in_chunk(lx, ly, lz),
        ly > 2,
    ensures
        ly == heights[column_index(lx, lz)] - 1 ==> generated_blocks(heights)[local_index(
            lx,
            ly,
            lz,
        )] == BlockType::Grass,
        ly >= heights[column_index(lx, lz)] ==> generated_blocks(heights)[local_index(
            lx,
            ly,
            lz,
        )] == BlockType::Air,
{
    lemma_generated_block(heights, lx, ly, lz);
}

/// The layers of a column with surface height `s`: bedrock on layers 0 to
/// 2; above them stone up to layer s - 5, three layers of dirt (s - 4 to
/// s - 2), one of grass (s - 1), and air from the surface up.
pub proof fn lemma_column_layers(wy: int, s: int)
    ensures
        layer_block(wy, s) == BlockType::Bedrock <==> wy <= 2,
        wy > 2 ==> (layer_block(wy, s) == BlockType::Stone <==> wy <= s - 5),
        wy > 2 ==> (layer_block(wy, s) == BlockType::Dirt <==> s - 4 <= wy <= s - 2),
        wy > 2 ==> (layer_block(wy, s) == BlockType::Grass <==> wy == s - 1),
        wy > 2 ==> (layer_block(wy, s) == BlockType::Air <==> wy >= s),
        !(layer_block(wy, s) is Wood) && !(layer_block(wy, s) is Leaves),
{
}

} // verus!
