//! The loaded chunks of a world: reading blocks at world positions, editing
//! them, and the queries the player's movement and aim are built on.

use std::collections::HashMap;
use vstd::prelude::*;
use crate::block::{
    BlockCoord, BlockType, ChunkCoord, ChunkData, CHUNK_SIZE_X, CHUNK_SIZE_Y, CHUNK_SIZE_Z,
    CHUNK_VOLUME, in_chunk, local_index,
};
use crate::terrain::{WorldGenerator, CHUNK_COLUMNS, generated_blocks};

verus! {

broadcast use vstd::std_specs::hash::group_hash_axioms;

/// The map key of the chunk at `c`: its x in the high half, its z in the
/// low half.
pub open spec fn chunk_key(c: ChunkCoord) -> u64 {
    (((c.x as u32) as u64) << 32u64) | ((c.z as u32) as u64)
}

/// Distinct chunk positions have distinct keys.
pub proof fn lemma_chunk_key_injective(a: ChunkCoord, b: ChunkCoord)
    ensures
        chunk_key(a) == chunk_key(b) ==> a == b,
{
    let ax = a.x;
    let az = a.z;
    let bx = b.x;
    let bz = b.z;
    assert((((ax as u32) as u64) << 32u64) | ((az as u32) as u64) == (((bx as u32) as u64)
        << 32u64) | ((bz as u32) as u64) ==> ax == bx && az == bz) by (bit_vector);
}

/// The map key of the chunk at `c`.
pub fn chunk_key_of(c: ChunkCoord) -> (r: u64)
    ensures
        r == chunk_key(c),
{
    (((c.x as u32) as u64) << 32u64) | ((c.z as u32) as u64)
}

/// The chunk that holds the world column (x, z).
pub open spec fn chunk_of(x: int, z: int) -> ChunkCoord {
    ChunkCoord { x: (x / CHUNK_SIZE_X as int) as i32, z: (z / CHUNK_SIZE_Z as int) as i32 }
}

/// The position of world x (or z) inside its chunk.
pub open spec fn local_of(v: int) -> int {
    v % 16
}

/// Splitting a world position into chunk and local position loses nothing:
/// the chunk times the chunk width plus the local position is the world
/// position, and the local position lies inside the chunk.
pub proof fn lemma_world_split(x: i32, z: i32)
    ensures
        chunk_of(x as int, z as int).x * CHUNK_SIZE_X + local_of(x as int) == x,
        chunk_of(x as int, z as int).z * CHUNK_SIZE_Z + local_of(z as int) == z,
        0 <= local_of(x as int) < CHUNK_SIZE_X,
        0 <= local_of(z as int) < CHUNK_SIZE_Z,
{
}

/// The chunk holding world column (wx, wz), as `div_euclid` by the chunk
/// size gives it.
pub fn chunk_coord_of(wx: i32, wz: i32) -> (r: ChunkCoord)
    ensures
        r == chunk_of(wx as int, wz as int),
{
    let cx = match wx.checked_div_euclid(CHUNK_SIZE_X) {
        Some(v) => v,
        None => 0,
    };
    let cz = match wz.checked_div_euclid(CHUNK_SIZE_Z) {
        Some(v) => v,
        None => 0,
    };
    ChunkCoord { x: cx, z: cz }
}

/// The position of world x (or z) inside its chunk, as `rem_euclid` by the
/// chunk size gives it.
pub fn local_coord_of(v: i32) -> (r: usize)
    ensures
        r == local_of(v as int),
        r < 16,
{
    let l = match v.checked_rem_euclid(CHUNK_SIZE_X) {
        Some(l) => l,
        None => 0,
    };
    l as usize
}

/// Which way an edit was made by the player.
#[derive(Debug, Clone, Copy, PartialEq, Eq, Structural)]
pub enum EditKind {
    Break,
    Place,
}

/// One block edit: the block at (x, y, z) becomes `block`.
#[derive(Debug, Clone, Copy, PartialEq, Eq, Structural)]
pub struct BlockEdit {
    pub x: i32,
    pub y: i32,
    pub z: i32,
    pub block: BlockType,
    pub kind: EditKind,
}

/// Where a ray of sampled block cells first meets a solid block, and the
/// last cell it crossed before.
#[derive(Debug, Clone, Copy, PartialEq, Eq, Structural)]
pub struct RayHit {
    pub hit: Option<BlockCoord>,
    pub prev: Option<BlockCoord>,
}

/// The block placed by the player at height `y`: stone at or below the
/// ground level 0, grass above.
pub fn block_to_place(y: i32) -> (r: BlockType)
    ensures
        r == (if y <= 0 {
            BlockType::Stone
        } else {
            BlockType::Grass
        }),
{
    if y <= 0 {
        BlockType::Stone
    } else {
        BlockType::Grass
    }
}

/// The generated chunks of a world, keyed by `chunk_key`.
pub struct ChunkWorld {
    pub generator: WorldGenerator,
    pub data: HashMap<u64, ChunkData>,
}

/// The chunks to refresh after an edit at local (lx, lz) of chunk `c`: the
/// chunk itself, then each neighbour across a border the edited block
/// touches, if that neighbour is loaded in `w`.
pub open spec fn rebuild_list(w: ChunkWorld, c: ChunkCoord, lx: int, lz: int) -> Seq<ChunkCoord> {
    seq![c] + neighbour_if(w, ChunkCoord { x: (c.x - 1) as i32, z: c.z }, lx == 0) + neighbour_if(
        w,
        ChunkCoord { x: (c.x + 1) as i32, z: c.z },
        lx == CHUNK_SIZE_X - 1,
    ) + neighbour_if(w, ChunkCoord { x: c.x, z: (c.z - 1) as i32 }, lz == 0) + neighbour_if(
        w,
        ChunkCoord { x: c.x, z: (c.z + 1) as i32 },
        lz == CHUNK_SIZE_Z - 1,
    )
}

/// `n` alone when `touches` holds and `n` is loaded in `w`, else nothing.
pub open spec fn neighbour_if(w: ChunkWorld, n: ChunkCoord, touches: bool) -> Seq<ChunkCoord> {
    if touches && w.chunk(n) is Some {
        seq![n]
    } else {
        seq![]
    }
}

/// The blocks an edit starts from in chunk `c`: the loaded chunk, or the one
/// generated from `heights` when `c` is not loaded.
pub open spec fn base_blocks(w: ChunkWorld, c: ChunkCoord, heights: Seq<i32>) -> Seq<BlockType> {
    match w.chunk(c) {
        Some(ch) => ch.blocks@,
        None => generated_blocks(heights),
    }
}

/// Whether a sampled cell holds a solid block.
pub open spec fn cell_solid(w: ChunkWorld, p: BlockCoord) -> bool {
    w.block_at(p.x, p.y, p.z) != BlockType::Air
}

/// `i` is the first cell of `cells` that holds a solid block.
pub open spec fn first_solid_at(w: ChunkWorld, cells: Seq<BlockCoord>, i: int) -> bool {
    &&& 0 <= i < cells.len()
    &&& cell_solid(w, cells[i])
    &&& forall|j: int| 0 <= j < i ==> !cell_solid(w, #[trigger] cells[j])
}

/// The first solid cell along the ray, if any.
pub open spec fn ray_hit(w: ChunkWorld, cells: Seq<BlockCoord>) -> Option<BlockCoord> {
    if exists|i: int| first_solid_at(w, cells, i) {
        Some(cells[choose|i: int| first_solid_at(w, cells, i)])
    } else {
        None
    }
}

/// The cell crossed just before the first solid one; with no solid cell,
/// the last cell of the ray.
pub open spec fn ray_prev(w: ChunkWorld, cells: Seq<BlockCoord>) -> Option<BlockCoord> {
    if exists|i: int| first_solid_at(w, cells, i) {
        let i = choose|i: int| first_solid_at(w, cells, i);
        if i == 0 {
            None
        } else {
            Some(cells[i - 1])
        }
    } else if cells.len() == 0 {
        None
    } else {
        Some(cells[cells.len() - 1])
    }
}

/// Some solid block lies in the box from `lo` to `hi`, bounds included.
pub open spec fn box_has_solid(w: ChunkWorld, lo: BlockCoord, hi: BlockCoord) -> bool {
    exists|x: i32, y: i32, z: i32|
        lo.x <= x <= hi.x && lo.y <= y <= hi.y && lo.z <= z <= hi.z && #[trigger] w.block_at(
            x,
            y,
            z,
        ) != BlockType::Air
}

/// The edits a click makes: breaking the first solid block hit, with the
/// left button; placing a block in the cell before it, with the right
/// button, when that cell is free.
pub open spec fn interaction_edits(
    w: ChunkWorld,
    cells: Seq<BlockCoord>,
    left: bool,
    right: bool,
) -> Seq<BlockEdit> {
    (if left && ray_hit(w, cells) is Some {
        let h = ray_hit(w, cells).unwrap();
        seq![BlockEdit { x: h.x, y: h.y, z: h.z, block: BlockType::Air, kind: EditKind::Break }]
    } else {
        seq![]
    }) + (if right && ray_prev(w, cells) is Some && !cell_solid(w, ray_prev(w, cells).unwrap()) {
        let p = ray_prev(w, cells).unwrap();
        seq![
            BlockEdit {
                x: p.x,
                y: p.y,
                z: p.z,
                block: if p.y <= 0 {
                    BlockType::Stone
                } else {
                    BlockType::Grass
                },
                kind: EditKind::Place,
            },
        ]
    } else {
        seq![]
    })
}

impl ChunkWorld {
    /// The loaded chunk at `c`, if any.
    pub open spec fn chunk(self, c: ChunkCoord) -> Option<ChunkData> {
        if self.data@.contains_key(chunk_key(c)) {
            Some(self.data@[chunk_key(c)])
        } else {
            None
        }
    }

    /// Every loaded chunk is complete and stored under its own key.
    pub open spec fn wf(self) -> bool {
        forall|k: u64|
            #[trigger] self.data@.contains_key(k) ==> self.data@[k].wf() && chunk_key(
                self.data@[k].coord,
            ) == k
    }

    /// The block at world position (x, y, z): air above and below the
    /// world, and in chunks that are not loaded.
    pub open spec fn block_at(self, x: i32, y: i32, z: i32) -> BlockType {
        if 0 <= y < CHUNK_SIZE_Y {
            match self.chunk(chunk_of(x as int, z as int)) {
                Some(ch) => ch.blocks@[local_index(local_of(x as int), y as int, local_of(z as int))],
                None => BlockType::Air,
            }
        } else {
            BlockType::Air
        }
    }

    /// A world with this seed and no chunk loaded yet.
    pub fn new(seed: u32) -> (r: Self)
        ensures
            r.generator.seed == seed,
            r.wf(),
            forall|c: ChunkCoord| r.chunk(c) is None,
    {
        ChunkWorld { generator: WorldGenerator::new(seed), data: HashMap::new() }
    }

    /// The loaded chunk at `c`, if any.
    pub fn get_chunk(&self, c: ChunkCoord) -> (r: Option<&ChunkData>)
        ensures
            match r {
                Some(ch) => self.chunk(c) == Some(*ch),
                None => self.chunk(c) is None,
            },
    {
        let k = chunk_key_of(c);
        self.data.get(&k)
    }

    /// Whether the chunk at `c` is loaded.
    pub fn contains_chunk(&self, c: ChunkCoord) -> (r: bool)
        ensures
            r == self.chunk(c) is Some,
    {
        let k = chunk_key_of(c);
        self.data.contains_key(&k)
    }

    /// Generates the chunk at `c` from the surface heights of its columns and
    /// stores it, replacing any chunk loaded there.
    pub fn load_chunk(&mut self, c: ChunkCoord, heights: &Vec<i32>)
        requires
            old(self).wf(),
            heights.len() == CHUNK_COLUMNS,
        ensures
            final(self).wf(),
            final(self).generator == old(self).generator,
            final(self).chunk(c) is Some,
            final(self).chunk(c).unwrap().coord == c,
            final(self).chunk(c).unwrap().blocks@ == generated_blocks(heights@),
            forall|o: ChunkCoord| o != c ==> final(self).chunk(o) == old(self).chunk(o),
    {
        let chunk = self.generator.generate_chunk(c, heights);
        let k = chunk_key_of(c);
        self.data.insert(k, chunk);
        proof {
            assert forall|o: ChunkCoord| o != c implies self.chunk(o) == old(self).chunk(o) by {
                lemma_chunk_key_injective(o, c);
            }
        }
    }

    /// Drops the chunk at `c` from memory; reports whether it was loaded.
    pub fn remove_chunk(&mut self, c: ChunkCoord) -> (r: bool)
        requires
            old(self).wf(),
        ensures
            final(self).wf(),
            final(self).generator == old(self).generator,
            r == old(self).chunk(c) is Some,
            final(self).chunk(c) is None,
            forall|o: ChunkCoord| o != c ==> final(self).chunk(o) == old(self).chunk(o),
    {
        let k = chunk_key_of(c);
        let removed = self.data.remove(&k);
        proof {
            assert forall|o: ChunkCoord| o != c implies self.chunk(o) == old(self).chunk(o) by {
                lemma_chunk_key_injective(o, c);
            }
        }
        removed.is_some()
    }

    /// The block at world position (x, y, z).
    pub fn get_block(&self, x: i32, y: i32, z: i32) -> (r: BlockType)
        requires
            self.wf(),
        ensures
            r == self.block_at(x, y, z),
    {
        if y < 0 || y >= CHUNK_SIZE_Y {
            return BlockType::Air;
        }
        let c = chunk_coord_of(x, z);
        let k = chunk_key_of(c);
        match self.data.get(&k) {
            Some(ch) => {
                let lx = local_coord_of(x);
                let lz = local_coord_of(z);
                assert(self.data@.contains_key(k));
                let idx = ch.index(lx, y as usize, lz);
                assert(idx < CHUNK_VOLUME) by (nonlinear_arith)
                    requires
                        idx == lx + lz * 16 + y * 256,
                        lx < 16,
                        lz < 16,
                        0 <= y < 64,
                ;
                ch.blocks[idx]
            },
            None => BlockType::Air,
        }
    }

    /// Whether a solid block stands at world position (x, y, z).
    pub fn is_block_solid(&self, x: i32, y: i32, z: i32) -> (r: bool)
        requires
            self.wf(),
        ensures
            r == (self.block_at(x, y, z) != BlockType::Air),
    {
        let b = self.get_block(x, y, z);
        b != BlockType::Air
    }

    /// Sets the block at world position (wx, wy, wz) to `new_type`,
    /// generating its chunk from `heights` first if it is not loaded.  An
    /// edit above or below the world changes nothing.  Returns the chunks
    /// whose mesh must be rebuilt: the edited one, then each loaded
    /// neighbour across a border the block touches.
    pub fn modify_block(
        &mut self,
        wx: i32,
        wy: i32,
        wz: i32,
        new_type: BlockType,
        heights: &Vec<i32>,
    ) -> (rebuild: Vec<ChunkCoord>)
        requires
            old(self).wf(),
            0 <= wy < CHUNK_SIZE_Y && old(self).chunk(chunk_of(wx as int, wz as int)) is None
                ==> heights.len() == CHUNK_COLUMNS,
        ensures
            final(self).wf(),
            final(self).generator == old(self).generator,
            !(0 <= wy < CHUNK_SIZE_Y) ==> final(self).data@ == old(self).data@ && rebuild@ == Seq::<
                ChunkCoord,
            >::empty(),
            0 <= wy < CHUNK_SIZE_Y ==> {
                let c = chunk_of(wx as int, wz as int);
                let lx = local_of(wx as int);
                let lz = local_of(wz as int);
                &&& final(self).chunk(c) is Some
                &&& final(self).chunk(c).unwrap().coord == c
                &&& final(self).chunk(c).unwrap().blocks@ == base_blocks(*old(self), c, heights@).update(
                    local_index(lx, wy as int, lz),
                    new_type,
                )
                &&& forall|o: ChunkCoord| o != c ==> final(self).chunk(o) == old(self).chunk(o)
                &&& rebuild@ == rebuild_list(*old(self), c, lx, lz)
            },
            0 <= wy < CHUNK_SIZE_Y ==> ({
                let old_w = *old(self);
                let c = chunk_of(wx as int, wz as int);
                let lx = local_of(wx as int);
                let lz = local_of(wz as int);
                &&& rebuild@.len() >= 1
                &&& rebuild@[0] == c
                &&& forall|n: ChunkCoord| #[trigger] rebuild@.contains(n) <==> (n == c || (old_w.chunk(n) is Some && ((n.x == c.x && n.z == c.z + 1 && lz == 15) || (n.x
                    == c.x && n.z == c.z - 1 && lz == 0) || (n.x == c.x + 1 && n.z == c.z && lx == 15)
                    || (n.x == c.x - 1 && n.z == c.z && lx == 0))))
                &&& forall|i: int, j: int| 0 <= i < j < rebuild@.len() ==> rebuild@[i] != rebuild@[j]
            }),
            0 <= wy < CHUNK_SIZE_Y ==> final(self).block_at(wx, wy, wz) == new_type,
            0 <= wy < CHUNK_SIZE_Y ==> forall|x: i32, y: i32, z: i32|
                !(x == wx && y == wy && z == wz) ==> #[trigger] final(self).block_at(x, y, z) == (
                if 0 <= y < CHUNK_SIZE_Y && chunk_of(x as int, z as int) == chunk_of(
                    wx as int,
                    wz as int,
                ) && old(self).chunk(chunk_of(wx as int, wz as int)) is None {
                    generated_blocks(heights@)[local_index(
                        local_of(x as int),
                        y as int,
                        local_of(z as int),
                    )]
                } else {
                    old(self).block_at(x, y, z)
                }),
    {
        let mut rebuild: Vec<ChunkCoord> = Vec::new();
        if wy < 0 || wy >= CHUNK_SIZE_Y {
            return rebuild;
        }
        let c = chunk_coord_of(wx, wz);
        let lx = local_coord_of(wx);
        let lz = local_coord_of(wz);
        let ly = wy as usize;
        let k = chunk_key_of(c);
        let ghost w0 = *old(self);
        let mut chunk = match self.data.remove(&k) {
            Some(ch) => ch,
            None => self.generator.generate_chunk(c, heights),
        };
        proof {
            lemma_chunk_key_injective(chunk.coord, c);
        }
        let idx = chunk.index(lx, ly, lz);
        assert(idx < CHUNK_VOLUME) by (nonlinear_arith)
            requires
                idx == lx + lz * 16 + ly * 256,
                lx < 16,
                lz < 16,
                ly < 64,
        ;
        chunk.blocks.set(idx, new_type);
        self.data.insert(k, chunk);
        proof {
            assert forall|o: ChunkCoord| o != c implies self.chunk(o) == w0.chunk(o) by {
                lemma_chunk_key_injective(o, c);
            }
        }
        rebuild.push(c);
        assert(-134217728 <= c.x < 134217728 && -134217728 <= c.z < 134217728);
        let left = ChunkCoord { x: c.x - 1, z: c.z };
        let right = ChunkCoord { x: c.x + 1, z: c.z };
        let back = ChunkCoord { x: c.x, z: c.z - 1 };
        let front = ChunkCoord { x: c.x, z: c.z + 1 };
        if lx == 0 && self.contains_chunk(left) {
            rebuild.push(left);
        }
        if lx == CHUNK_SIZE_X as usize - 1 && self.contains_chunk(right) {
            rebuild.push(right);
        }
        if lz == 0 && self.contains_chunk(back) {
            rebuild.push(back);
        }
        if lz == CHUNK_SIZE_Z as usize - 1 && self.contains_chunk(front) {
            rebuild.push(front);
        }
        assert(rebuild@ =~= rebuild_list(w0, c, lx as int, lz as int));
        proof {
            lemma_edit_reads(w0, *self, wx, wy, wz, new_type, heights@);
            lemma_rebuild_neighbours(w0, wx, wz);
        }
        rebuild
    }

    /// The first solid cell along a ray of sampled cells, and the cell
    /// crossed just before it.
    pub fn first_solid(&self, cells: &Vec<BlockCoord>) -> (r: RayHit)
        requires
            self.wf(),
        ensures
            r.hit == ray_hit(*self, cells@),
            r.prev == ray_prev(*self, cells@),
    {
        let mut prev: Option<BlockCoord> = None;
        let mut i: usize = 0;
        while i < cells.len()
            invariant
                self.wf(),
                i <= cells.len(),
                forall|j: int| 0 <= j < i ==> !cell_solid(*self, #[trigger] cells@[j]),
                prev == (if i == 0 {
                    None
                } else {
                    Some(cells@[i - 1])
                }),
            decreases cells.len() - i,
        {
            let p = cells[i];
            if self.is_block_solid(p.x, p.y, p.z) {
                proof {
                    assert(first_solid_at(*self, cells@, i as int));
                    let k = choose|k: int| first_solid_at(*self, cells@, k);
                    lemma_first_solid_unique(*self, cells@, i as int, k);
                }
                return RayHit { hit: Some(p), prev };
            }
            prev = Some(p);
            i = i + 1;
        }
        proof {
            assert forall|k: int| !first_solid_at(*self, cells@, k) by {
                if 0 <= k < cells@.len() {
                    assert(!cell_solid(*self, cells@[k]));
                }
            }
        }
        RayHit { hit: None, prev }
    }

    /// Whether some solid block lies in the box from `lo` to `hi`, bounds
    /// included.
    pub fn any_solid_in_box(&self, lo: BlockCoord, hi: BlockCoord) -> (r: bool)
        requires
            self.wf(),
        ensures
            r == box_has_solid(*self, lo, hi),
    {
        let mut x: i64 = lo.x as i64;
        while x <= hi.x as i64
            invariant
                self.wf(),
                lo.x <= x,
                x <= hi.x + 1 || x == lo.x,
                forall|cx: i32, cy: i32, cz: i32|
                    lo.x <= cx < x && lo.y <= cy <= hi.y && lo.z <= cz <= hi.z
                        ==> #[trigger] self.block_at(cx, cy, cz) == BlockType::Air,
            decreases hi.x + 1 - x,
        {
            let mut y: i64 = lo.y as i64;
            while y <= hi.y as i64
                invariant
                    self.wf(),
                    lo.x <= x <= hi.x,
                    lo.y <= y,
                    y <= hi.y + 1 || y == lo.y,
                    forall|cx: i32, cy: i32, cz: i32|
                        lo.x <= cx < x && lo.y <= cy <= hi.y && lo.z <= cz <= hi.z
                            ==> #[trigger] self.block_at(cx, cy, cz) == BlockType::Air,
                    forall|cy: i32, cz: i32|
                        lo.y <= cy < y && lo.z <= cz <= hi.z ==> #[trigger] self.block_at(
                            x as i32,
                            cy,
                            cz,
                        ) == BlockType::Air,
                decreases hi.y + 1 - y,
            {
                let mut z: i64 = lo.z as i64;
                while z <= hi.z as i64
                    invariant
                        self.wf(),
                        lo.x <= x <= hi.x,
                        lo.y <= y <= hi.y,
                        lo.z <= z,
                        z <= hi.z + 1 || z == lo.z,
                        forall|cx: i32, cy: i32, cz: i32|
                            lo.x <= cx < x && lo.y <= cy <= hi.y && lo.z <= cz <= hi.z
                                ==> #[trigger] self.block_at(cx, cy, cz) == BlockType::Air,
                        forall|cy: i32, cz: i32|
                            lo.y <= cy < y && lo.z <= cz <= hi.z ==> #[trigger] self.block_at(
                                x as i32,
                                cy,
                                cz,
                            ) == BlockType::Air,
                        forall|cz: i32|
                            lo.z <= cz < z ==> #[trigger] self.block_at(x as i32, y as i32, cz)
                                == BlockType::Air,
                    decreases hi.z + 1 - z,
                {
                    if self.is_block_solid(x as i32, y as i32, z as i32) {
                        assert(self.block_at(x as i32, y as i32, z as i32) != BlockType::Air);
                        return true;
                    }
                    z = z + 1;
                }
                y = y + 1;
            }
            x = x + 1;
        }
        false
    }

    /// The block edits a click makes along a ray of sampled cells.
    pub fn plan_interaction(&self, cells: &Vec<BlockCoord>, left: bool, right: bool) -> (r: Vec<
        BlockEdit,
    >)
        requires
            self.wf(),
        ensures
            r@ == interaction_edits(*self, cells@, left, right),
    {
        let ray = self.first_solid(cells);
        let mut edits: Vec<BlockEdit> = Vec::new();
        if left {
            if let Some(h) = ray.hit {
                edits.push(
                    BlockEdit { x: h.x, y: h.y, z: h.z, block: BlockType::Air, kind: EditKind::Break },
                );
            }
        }
        if right {
            if let Some(p) = ray.prev {
                if !self.is_block_solid(p.x, p.y, p.z) {
                    edits.push(
                        BlockEdit {
                            x: p.x,
                            y: p.y,
                            z: p.z,
                            block: block_to_place(p.y),
                            kind: EditKind::Place,
                        },
                    );
                }
            }
        }
        assert(edits@ =~= interaction_edits(*self, cells@, left, right));
        edits
    }
}

/// At most one cell of a ray is the first solid one.
proof fn lemma_first_solid_unique(w: ChunkWorld, cells: Seq<BlockCoord>, i: int, k: int)
    requires
        first_solid_at(w, cells, i),
        first_solid_at(w, cells, k),
    ensures
        i == k,
{
    if i < k {
        assert(!cell_solid(w, cells[i]));
    } else if k < i {
        assert(!cell_solid(w, cells[k]));
    }
}

/// Two world positions in the same chunk at the same local position and
/// height are the same position.
proof fn lemma_same_local_same_position(x: i32, y: i32, z: i32, wx: i32, wy: i32, wz: i32)
    requires
        0 <= y < CHUNK_SIZE_Y,
        0 <= wy < CHUNK_SIZE_Y,
        chunk_of(x as int, z as int) == chunk_of(wx as int, wz as int),
        local_index(local_of(x as int), y as int, local_of(z as int)) == local_index(
            local_of(wx as int),
            wy as int,
            local_of(wz as int),
        ),
    ensures
        x == wx && y == wy && z == wz,
{
    crate::block::lemma_local_index_bijective(local_of(x as int), y as int, local_of(z as int), 0);
    crate::block::lemma_local_index_bijective(
        local_of(wx as int),
        wy as int,
        local_of(wz as int),
        0,
    );
    lemma_world_split(x, z);
    lemma_world_split(wx, wz);
}

/// What every world position reads after the edit that `modify_block`
/// describes at the chunk level.
proof fn lemma_edit_reads(
    w0: ChunkWorld,
    w1: ChunkWorld,
    wx: i32,
    wy: i32,
    wz: i32,
    t: BlockType,
    heights: Seq<i32>,
)
    requires
        w0.wf(),
        w1.wf(),
        0 <= wy < CHUNK_SIZE_Y,
        w0.chunk(chunk_of(wx as int, wz as int)) is None ==> heights.len() == CHUNK_COLUMNS,
        w1.chunk(chunk_of(wx as int, wz as int)) is Some,
        w1.chunk(chunk_of(wx as int, wz as int)).unwrap().blocks@ == base_blocks(
            w0,
            chunk_of(wx as int, wz as int),
            heights,
        ).update(local_index(local_of(wx as int), wy as int, local_of(wz as int)), t),
        forall|o: ChunkCoord| o != chunk_of(wx as int, wz as int) ==> w1.chunk(o) == w0.chunk(o),
    ensures
        w1.block_at(wx, wy, wz) == t,
        forall|x: i32, y: i32, z: i32|
            !(x == wx && y == wy && z == wz) ==> #[trigger] w1.block_at(x, y, z) == (if 0 <= y
                < CHUNK_SIZE_Y && chunk_of(x as int, z as int) == chunk_of(wx as int, wz as int)
                && w0.chunk(chunk_of(wx as int, wz as int)) is None {
                generated_blocks(heights)[local_index(local_of(x as int), y as int, local_of(z as int))]
            } else {
                w0.block_at(x, y, z)
            }),
{
    let c = chunk_of(wx as int, wz as int);
    let idx = local_index(local_of(wx as int), wy as int, local_of(wz as int));
    crate::block::lemma_local_index_bijective(local_of(wx as int), wy as int, local_of(wz as int), 0);
    if w0.chunk(c) is Some {
        assert(w0.data@.contains_key(chunk_key(c)));
    }
    assert(base_blocks(w0, c, heights).len() == CHUNK_VOLUME);
    assert forall|x: i32, y: i32, z: i32|
        !(x == wx && y == wy && z == wz) implies #[trigger] w1.block_at(x, y, z) == (if 0 <= y
            < CHUNK_SIZE_Y && chunk_of(x as int, z as int) == c && w0.chunk(c) is None {
            generated_blocks(heights)[local_index(local_of(x as int), y as int, local_of(z as int))]
        } else {
            w0.block_at(x, y, z)
        }) by {
        if 0 <= y < CHUNK_SIZE_Y && chunk_of(x as int, z as int) == c {
            let j = local_index(local_of(x as int), y as int, local_of(z as int));
            if j == idx {
                lemma_same_local_same_position(x, y, z, wx, wy, wz);
            }
            crate::block::lemma_local_index_bijective(local_of(x as int), y as int, local_of(z as int), 0);
        }
    }
}

/// If some cell of a ray is solid, one of them is the first solid cell.
proof fn lemma_solid_cell_has_first(w: ChunkWorld, cells: Seq<BlockCoord>, j: int)
    requires
        0 <= j < cells.len(),
        cell_solid(w, cells[j]),
    ensures
        exists|i: int| first_solid_at(w, cells, i),
    decreases j,
{
    if exists|k: int| 0 <= k < j && cell_solid(w, #[trigger] cells[k]) {
        let k = choose|k: int| 0 <= k < j && cell_solid(w, #[trigger] cells[k]);
        lemma_solid_cell_has_first(w, cells, k);
    } else {
        assert(first_solid_at(w, cells, j));
    }
}

/// The cell a block is placed in is always free: the cell before the first
/// solid one, or the last cell of a ray that meets no solid block, is never
/// solid itself.
pub proof fn lemma_ray_prev_free(w: ChunkWorld, cells: Seq<BlockCoord>)
    ensures
        ray_prev(w, cells) matches Some(p) ==> !cell_solid(w, p),
        ray_hit(w, cells) matches Some(h) ==> cell_solid(w, h),
{
    if exists|i: int| first_solid_at(w, cells, i) {
        let i = choose|i: int| first_solid_at(w, cells, i);
        if i > 0 {
            assert(!cell_solid(w, cells[i - 1]));
        }
    } else if cells.len() > 0 {
        if cell_solid(w, cells[cells.len() - 1]) {
            lemma_solid_cell_has_first(w, cells, cells.len() - 1);
        }
    }
}

/// Which chunks an edit at world column (wx, wz) rebuilds: its own chunk,
/// first, and a loaded neighbour exactly when the edited block lies on the
/// border facing it (local z 15 for the chunk at z + 1, local z 0 for z - 1,
/// local x 15 for x + 1, local x 0 for x - 1); each chunk once.
pub proof fn lemma_rebuild_neighbours(old_w: ChunkWorld, wx: i32, wz: i32)
    ensures
        ({
            let c = chunk_of(wx as int, wz as int);
            let lx = local_of(wx as int);
            let lz = local_of(wz as int);
            let r = rebuild_list(old_w, c, lx, lz);
            &&& r.len() >= 1
            &&& r[0] == c
            &&& forall|n: ChunkCoord| #[trigger] r.contains(n) <==> (n == c || (old_w.chunk(n) is Some && ((n.x == c.x && n.z == c.z + 1 && lz == 15) || (n.x
                    == c.x && n.z == c.z - 1 && lz == 0) || (n.x == c.x + 1 && n.z == c.z && lx == 15)
                    || (n.x == c.x - 1 && n.z == c.z && lx == 0))))
            &&& forall|i: int, j: int| 0 <= i < j < r.len() ==> r[i] != r[j]
        }),
{
    let c = chunk_of(wx as int, wz as int);
    let lx = local_of(wx as int);
    let lz = local_of(wz as int);
    assert(-134217728 <= c.x < 134217728 && -134217728 <= c.z < 134217728);
    let west = ChunkCoord { x: (c.x - 1) as i32, z: c.z };
    let east = ChunkCoord { x: (c.x + 1) as i32, z: c.z };
    let north = ChunkCoord { x: c.x, z: (c.z - 1) as i32 };
    let south = ChunkCoord { x: c.x, z: (c.z + 1) as i32 };
    let a = neighbour_if(old_w, west, lx == 0);
    let b = neighbour_if(old_w, east, lx == CHUNK_SIZE_X - 1);
    let d = neighbour_if(old_w, north, lz == 0);
    let e = neighbour_if(old_w, south, lz == CHUNK_SIZE_Z - 1);
    let r = rebuild_list(old_w, c, lx, lz);
    assert(r == seq![c] + a + b + d + e);
    assert forall|n: ChunkCoord| #[trigger] r.contains(n) <==> (n == c || (old_w.chunk(n) is Some && ((n.x == c.x && n.z == c.z + 1 && lz == 15) || (n.x
                    == c.x && n.z == c.z - 1 && lz == 0) || (n.x == c.x + 1 && n.z == c.z && lx == 15)
                    || (n.x == c.x - 1 && n.z == c.z && lx == 0)))) by {
        if r.contains(n) {
            let i = choose|i: int| 0 <= i < r.len() && r[i] == n;
            let s1 = seq![c] + a;
            let s2 = s1 + b;
            let s3 = s2 + d;
            if i < s1.len() {
                if i >= 1 {
                    assert(n == a[i - 1]);
                }
            } else if i < s2.len() {
                assert(n == b[i - s1.len()]);
            } else if i < s3.len() {
                assert(n == d[i - s2.len()]);
            } else {
                assert(n == e[i - s3.len()]);
            }
        }
        if (n == c || (old_w.chunk(n) is Some && ((n.x == c.x && n.z == c.z + 1 && lz == 15) || (n.x
                    == c.x && n.z == c.z - 1 && lz == 0) || (n.x == c.x + 1 && n.z == c.z && lx == 15)
                    || (n.x == c.x - 1 && n.z == c.z && lx == 0)))) {
            if n == c {
                assert(r[0] == c);
            } else if n == west {
                assert(r[1] == west);
            } else if n == east {
                assert(r[1 + a.len() as int] == east);
            } else if n == north {
                assert(r[1 + a.len() + b.len() as int] == north);
            } else {
                assert(n == south);
                assert(r[1 + a.len() + b.len() + d.len() as int] == south);
            }
        }
    }
}

/// The ray stops at its first solid cell: a hit is a cell of the ray that
/// is solid with no solid cell before it, and there is no hit exactly when
/// no cell of the ray is solid.
pub proof fn lemma_ray_hit_first(w: ChunkWorld, cells: Seq<BlockCoord>)
    ensures
        ray_hit(w, cells) is None <==> forall|j: int| 0 <= j < cells.len() ==> !cell_solid(w, #[trigger] cells[j]),
        ray_hit(w, cells) matches Some(h) ==> exists|i: int|
            0 <= i < cells.len() && cells[i] == h && cell_solid(w, cells[i]) && (forall|j: int|
                0 <= j < i ==> !cell_solid(w, #[trigger] cells[j])) && ray_prev(w, cells) == (if i == 0 {
                None
            } else {
                Some(cells[i - 1])
            }),
        ray_hit(w, cells) is None ==> ray_prev(w, cells) == (if cells.len() == 0 {
            None
        } else {
            Some(cells[cells.len() - 1])
        }),
{
    if exists|i: int| first_solid_at(w, cells, i) {
        let i = choose|i: int| first_solid_at(w, cells, i);
        assert(cell_solid(w, cells[i]));
    } else {
        assert forall|j: int| 0 <= j < cells.len() implies !cell_solid(w, #[trigger] cells[j]) by {
            if cell_solid(w, cells[j]) {
                lemma_solid_cell_has_first(w, cells, j);
            }
        }
    }
}

/// A box holds a solid block exactly when one of its cells, bounds
/// included, is solid: a one-cell box is solid when its cell is, a box with
/// a bound past the other is empty, and a larger box holds all a smaller one
/// does.
pub proof fn lemma_box_query(w: ChunkWorld, lo: BlockCoord, hi: BlockCoord, lo2: BlockCoord, hi2: BlockCoord)
    ensures
        box_has_solid(w, lo, lo) == (w.block_at(lo.x, lo.y, lo.z) != BlockType::Air),
        lo.x > hi.x || lo.y > hi.y || lo.z > hi.z ==> !box_has_solid(w, lo, hi),
        lo2.x <= lo.x && lo2.y <= lo.y && lo2.z <= lo.z && hi.x <= hi2.x && hi.y <= hi2.y && hi.z
            <= hi2.z && box_has_solid(w, lo, hi) ==> box_has_solid(w, lo2, hi2),
{
    if w.block_at(lo.x, lo.y, lo.z) != BlockType::Air {
        assert(box_has_solid(w, lo, lo));
    }
    if lo2.x <= lo.x && lo2.y <= lo.y && lo2.z <= lo.z && hi.x <= hi2.x && hi.y <= hi2.y && hi.z
        <= hi2.z && box_has_solid(w, lo, hi) {
        let (x, y, z) = choose|x: i32, y: i32, z: i32|
            lo.x <= x <= hi.x && lo.y <= y <= hi.y && lo.z <= z <= hi.z && #[trigger] w.block_at(
                x,
                y,
                z,
            ) != BlockType::Air;
        assert(w.block_at(x, y, z) != BlockType::Air);
    }
}

/// A click makes at most one break and one place, in that order: the left
/// button breaks the first solid block of the ray, setting it to air; the
/// right button places, in the cell before it (or the last cell when
/// nothing is hit), stone at or below height 0 and grass above.
pub proof fn lemma_interaction_edits(w: ChunkWorld, cells: Seq<BlockCoord>, left: bool, right: bool)
    ensures
        ({
            let e = interaction_edits(w, cells, left, right);
            let breaks = left && ray_hit(w, cells) is Some;
            let places = right && ray_prev(w, cells) is Some;
            &&& e.len() == (if breaks { 1int } else { 0int }) + (if places { 1int } else { 0int })
            &&& breaks ==> e[0].kind == EditKind::Break && e[0].block == BlockType::Air && e[0].x
                == ray_hit(w, cells).unwrap().x && e[0].y == ray_hit(w, cells).unwrap().y && e[0].z
                == ray_hit(w, cells).unwrap().z
            &&& places ==> {
                let p = e[e.len() - 1];
                &&& p.kind == EditKind::Place
                &&& p.x == ray_prev(w, cells).unwrap().x && p.y == ray_prev(w, cells).unwrap().y && p.z
                    == ray_prev(w, cells).unwrap().z
                &&& p.block == (if p.y <= 0 { BlockType::Stone } else { BlockType::Grass })
            }
        }),
{
    lemma_ray_prev_free(w, cells);
}

} // verus!
