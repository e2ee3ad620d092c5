//! The visible faces of a chunk: a face of a solid block is drawn only
//! where it touches air, and each drawn face is a quad of two triangles.

use vstd::prelude::*;
use crate::block::{BlockType, ChunkData, CHUNK_SIZE_X, CHUNK_SIZE_Y, CHUNK_SIZE_Z, CHUNK_VOLUME, in_chunk};

verus! {

/// The side of a block a face covers.
#[derive(Debug, Clone, Copy, PartialEq, Eq, Structural)]
pub enum FaceDir {
    /// Towards +y.
    Up,
    /// Towards -y.
    Down,
    /// Towards -z.
    North,
    /// Towards +z.
    South,
    /// Towards -x.
    West,
    /// Towards +x.
    East,
}

/// One visible face: the side `dir` of the block at local (x, y, z), drawn
/// with atlas tile `tile`.
#[derive(Debug, Clone, Copy, PartialEq, Eq, Structural)]
pub struct Face {
    pub x: i32,
    pub y: i32,
    pub z: i32,
    pub dir: FaceDir,
    pub tile: usize,
}

/// The faces of a chunk and the triangle indices that draw them, four
/// vertices per face.
pub struct ChunkMesh {
    pub faces: Vec<Face>,
    pub indices: Vec<u32>,
}

/// The step from a block to its neighbour on side `dir`.
pub open spec fn dir_offset(dir: FaceDir) -> (int, int, int) {
    match dir {
        FaceDir::Up => (0, 1, 0),
        FaceDir::Down => (0, -1, 0),
        FaceDir::North => (0, 0, -1),
        FaceDir::South => (0, 0, 1),
        FaceDir::West => (-1, 0, 0),
        FaceDir::East => (1, 0, 0),
    }
}

/// The atlas tile of a block kind on a face: grass shows its top on the
/// upper face, dirt on the lower one and its side elsewhere.
pub open spec fn tile_for(b: BlockType, is_top: bool, is_bottom: bool) -> usize {
    match b {
        BlockType::Grass => if is_top {
            1
        } else if is_bottom {
            3
        } else {
            0
        },
        BlockType::Dirt => 3,
        BlockType::Stone => 4,
        BlockType::Bedrock => 8,
        BlockType::Wood => 10,
        BlockType::Leaves => 12,
        BlockType::Air => 0,
    }
}

/// The atlas tile of block kind `b` on side `dir`.
pub open spec fn face_tile(b: BlockType, dir: FaceDir) -> usize {
    tile_for(b, dir is Up, dir is Down)
}

/// The neighbour of local (x, y, z) on side `dir`, air outside the chunk.
pub open spec fn neighbour(chunk: ChunkData, x: int, y: int, z: int, dir: FaceDir) -> BlockType {
    let d = dir_offset(dir);
    chunk.block(x + d.0, y + d.1, z + d.2)
}

/// The face on side `dir` of the block `b` at (x, y, z), when it touches
/// air.
pub open spec fn face_if_open(
    chunk: ChunkData,
    x: int,
    y: int,
    z: int,
    dir: FaceDir,
    b: BlockType,
) -> Seq<Face> {
    if neighbour(chunk, x, y, z, dir) == BlockType::Air {
        seq![Face { x: x as i32, y: y as i32, z: z as i32, dir, tile: face_tile(b, dir) }]
    } else {
        seq![]
    }
}

/// The visible faces of the block at (x, y, z), in the order up, down,
/// north, south, west, east; none for air.
pub open spec fn cell_faces(chunk: ChunkData, x: int, y: int, z: int) -> Seq<Face> {
    let b = chunk.block(x, y, z);
    if b == BlockType::Air {
        seq![]
    } else {
        face_if_open(chunk, x, y, z, FaceDir::Up, b) + face_if_open(chunk, x, y, z, FaceDir::Down, b)
            + face_if_open(chunk, x, y, z, FaceDir::North, b) + face_if_open(
            chunk,
            x,
            y,
            z,
            FaceDir::South,
            b,
        ) + face_if_open(chunk, x, y, z, FaceDir::West, b) + face_if_open(
            chunk,
            x,
            y,
            z,
            FaceDir::East,
            b,
        )
    }
}

/// Local x of the `k`-th block in meshing order (x outermost, then z, then
/// y).
pub open spec fn mesh_x(k: int) -> int {
    k / 1024
}

/// Local z of the `k`-th block in meshing order.
pub open spec fn mesh_z(k: int) -> int {
    (k / 64) % 16
}

/// Local y of the `k`-th block in meshing order.
pub open spec fn mesh_y(k: int) -> int {
    k % 64
}

/// The faces of the first `k` blocks in meshing order.
pub open spec fn faces_upto(chunk: ChunkData, k: nat) -> Seq<Face>
    decreases k,
{
    if k == 0 {
        seq![]
    } else {
        faces_upto(chunk, (k - 1) as nat) + cell_faces(
            chunk,
            mesh_x(k - 1),
            mesh_y(k - 1),
            mesh_z(k - 1),
        )
    }
}

/// All the visible faces of a chunk.
pub open spec fn mesh_faces(chunk: ChunkData) -> Seq<Face> {
    faces_upto(chunk, CHUNK_VOLUME as nat)
}

/// Which of a quad's four vertices the `j`-th index of its two triangles
/// names: (0, 1, 2) and (0, 2, 3), counter-clockwise.
pub open spec fn quad_corner(j: int) -> int {
    if j == 0 || j == 3 {
        0
    } else if j == 1 {
        1
    } else if j == 2 || j == 4 {
        2
    } else {
        3
    }
}

/// The triangle indices of `n` quads whose vertices are stored four by four.
pub open spec fn quad_indices(n: nat) -> Seq<u32> {
    Seq::new(6 * n, |i: int| (4 * (i / 6) + quad_corner(i % 6)) as u32)
}

/// The face `f` is drawn rightly: it belongs to a solid block of the chunk,
/// the neighbour on its side is air, and its tile is the block's tile for
/// that side.
pub open spec fn face_exposed(chunk: ChunkData, f: Face) -> bool {
    &&& in_chunk(f.x as int, f.y as int, f.z as int)
    &&& chunk.block(f.x as int, f.y as int, f.z as int) != BlockType::Air
    &&& neighbour(chunk, f.x as int, f.y as int, f.z as int, f.dir) == BlockType::Air
    &&& f.tile == face_tile(chunk.block(f.x as int, f.y as int, f.z as int), f.dir)
}

/// The atlas tile of a block kind on a face.
pub fn tile_index(b: BlockType, is_top: bool, is_bottom: bool) -> (r: usize)
    ensures
        r == tile_for(b, is_top, is_bottom),
        !(b is Grass) ==> r == tile_for(b, false, false),
        r < 16,
{
    match b {
        BlockType::Grass => {
            if is_top {
                1
            } else if is_bottom {
                3
            } else {
                0
            }
        },
        BlockType::Dirt => 3,
        BlockType::Stone => 4,
        BlockType::Bedrock => 8,
        BlockType::Wood => 10,
        BlockType::Leaves => 12,
        _ => 0,
    }
}

/// The block at local (x, y, z), air outside the chunk.
fn block_or_air(chunk: &ChunkData, x: i32, y: i32, z: i32) -> (r: BlockType)
    requires
        chunk.blocks.len() >= CHUNK_VOLUME,
    ensures
        r == chunk.block(x as int, y as int, z as int),
{
    if x >= 0 && x < CHUNK_SIZE_X && y >= 0 && y < CHUNK_SIZE_Y && z >= 0 && z < CHUNK_SIZE_Z {
        assert(x + z * 16 + y * 256 < CHUNK_VOLUME) by (nonlinear_arith)
            requires
                0 <= x < 16,
                0 <= y < 64,
                0 <= z < 16,
        ;
        match chunk.get_block(x as usize, y as usize, z as usize) {
            Some(b) => b,
            None => BlockType::Air,
        }
    } else {
        BlockType::Air
    }
}

/// Appends the face on side `dir` of block `b` at (x, y, z) when its
/// neighbour `n` there is air.
fn push_face_if_open(
    faces: &mut Vec<Face>,
    x: i32,
    y: i32,
    z: i32,
    dir: FaceDir,
    b: BlockType,
    n: BlockType,
)
    ensures
        final(faces)@ == old(faces)@ + (if n == BlockType::Air {
            seq![Face { x, y, z, dir, tile: face_tile(b, dir) }]
        } else {
            seq![]
        }),
{
    if n == BlockType::Air {
        let is_top = match dir {
            FaceDir::Up => true,
            _ => false,
        };
        let is_bottom = match dir {
            FaceDir::Down => true,
            _ => false,
        };
        faces.push(Face { x, y, z, dir, tile: tile_index(b, is_top, is_bottom) });
    }
    assert(final(faces)@ =~= old(faces)@ + (if n == BlockType::Air {
        seq![Face { x, y, z, dir, tile: face_tile(b, dir) }]
    } else {
        seq![]
    }));
}

/// Appends the visible faces of the block at local (x, y, z).
fn push_cell_faces(faces: &mut Vec<Face>, chunk: &ChunkData, x: i32, y: i32, z: i32)
    requires
        chunk.blocks.len() >= CHUNK_VOLUME,
        in_chunk(x as int, y as int, z as int),
    ensures
        final(faces)@ == old(faces)@ + cell_faces(*chunk, x as int, y as int, z as int),
{
    let b = block_or_air(chunk, x, y, z);
    let ghost before = faces@;
    if b != BlockType::Air {
        let n_up = block_or_air(chunk, x, y + 1, z);
        push_face_if_open(faces, x, y, z, FaceDir::Up, b, n_up);
        let n_down = block_or_air(chunk, x, y - 1, z);
        push_face_if_open(faces, x, y, z, FaceDir::Down, b, n_down);
        let n_north = block_or_air(chunk, x, y, z - 1);
        push_face_if_open(faces, x, y, z, FaceDir::North, b, n_north);
        let n_south = block_or_air(chunk, x, y, z + 1);
        push_face_if_open(faces, x, y, z, FaceDir::South, b, n_south);
        let n_west = block_or_air(chunk, x - 1, y, z);
        push_face_if_open(faces, x, y, z, FaceDir::West, b, n_west);
        let n_east = block_or_air(chunk, x + 1, y, z);
        push_face_if_open(faces, x, y, z, FaceDir::East, b, n_east);
    }
    assert(faces@ =~= before + cell_faces(*chunk, x as int, y as int, z as int));
}

/// The visible faces of a chunk, block by block with x outermost, then z,
/// then y, and the triangle indices that draw them.
pub fn build_chunk_mesh(chunk: &ChunkData) -> (r: ChunkMesh)
    requires
        chunk.blocks.len() >= CHUNK_VOLUME,
    ensures
        r.faces@ == mesh_faces(*chunk),
        r.faces.len() <= 6 * CHUNK_VOLUME,
        r.indices@ == quad_indices(r.faces.len() as nat),
{
    let mut faces: Vec<Face> = Vec::new();
    let mut k: usize = 0;
    while k < CHUNK_VOLUME
        invariant
            chunk.blocks.len() >= CHUNK_VOLUME,
            k <= CHUNK_VOLUME,
            faces@ == faces_upto(*chunk, k as nat),
            faces.len() <= 6 * k,
        decreases CHUNK_VOLUME - k,
    {
        let x = (k / 1024) as i32;
        let z = ((k / 64) % 16) as i32;
        let y = (k % 64) as i32;
        push_cell_faces(&mut faces, chunk, x, y, z);
        assert(faces_upto(*chunk, (k + 1) as nat) == faces_upto(*chunk, k as nat) + cell_faces(
            *chunk,
            mesh_x(k as int),
            mesh_y(k as int),
            mesh_z(k as int),
        ));
        k = k + 1;
    }
    let n = faces.len();
    let mut indices: Vec<u32> = Vec::new();
    let mut i: usize = 0;
    while i < n
        invariant
            i <= n,
            n <= 6 * CHUNK_VOLUME,
            indices@ == quad_indices(i as nat),
        decreases n - i,
    {
        let base = (4 * i) as u32;
        indices.push(base);
        indices.push(base + 1);
        indices.push(base + 2);
        indices.push(base);
        indices.push(base + 2);
        indices.push(base + 3);
        proof {
            let q = quad_indices((i + 1) as nat);
            assert forall|j: int| 0 <= j < 6 * (i + 1) implies #[trigger] indices@[j] == q[j] by {
                if j < 6 * i {
                    assert(j / 6 < i && j / 6 == j / 6) by (nonlinear_arith)
                        requires
                            0 <= j < 6 * i,
                    ;
                } else {
                    assert(j / 6 == i && j % 6 == j - 6 * i) by (nonlinear_arith)
                        requires
                            6 * i <= j < 6 * (i + 1),
                    ;
                }
            }
            assert(indices@ =~= q);
        }
        i = i + 1;
    }
    ChunkMesh { faces, indices }
}

impl Face {
    /// The outward direction of this face.
    pub fn normal(&self) -> (r: (i32, i32, i32))
        ensures
            (r.0 as int, r.1 as int, r.2 as int) == dir_offset(self.dir),
    {
        match self.dir {
            FaceDir::Up => (0, 1, 0),
            FaceDir::Down => (0, -1, 0),
            FaceDir::North => (0, 0, -1),
            FaceDir::South => (0, 0, 1),
            FaceDir::West => (-1, 0, 0),
            FaceDir::East => (1, 0, 0),
        }
    }

    /// The four corners of this face, counter-clockwise seen from outside,
    /// as offsets of the block position (0 or 1 on each axis).
    pub fn corner_offsets(&self) -> (r: [(i32, i32, i32); 4])
        ensures
            r@ == corner_offsets_of(self.dir),
    {
        let r = match self.dir {
            FaceDir::Up => [(0, 1, 1), (1, 1, 1), (1, 1, 0), (0, 1, 0)],
            FaceDir::Down => [(0, 0, 0), (1, 0, 0), (1, 0, 1), (0, 0, 1)],
            FaceDir::North => [(1, 0, 0), (0, 0, 0), (0, 1, 0), (1, 1, 0)],
            FaceDir::South => [(0, 0, 1), (1, 0, 1), (1, 1, 1), (0, 1, 1)],
            FaceDir::West => [(0, 0, 0), (0, 0, 1), (0, 1, 1), (0, 1, 0)],
            FaceDir::East => [(1, 0, 1), (1, 0, 0), (1, 1, 0), (1, 1, 1)],
        };
        assert(r@ =~= corner_offsets_of(self.dir));
        r
    }

    /// The atlas cell (column, row) of this face's tile, four tiles a row.
    pub fn atlas_cell(&self) -> (r: (usize, usize))
        ensures
            r == (self.tile % 4, self.tile / 4),
    {
        (self.tile % 4, self.tile / 4)
    }
}

/// The corners of a face on side `dir`, as offsets of its block position,
/// counter-clockwise seen from outside.
pub open spec fn corner_offsets_of(dir: FaceDir) -> Seq<(i32, i32, i32)> {
    match dir {
        FaceDir::Up => seq![(0, 1, 1), (1, 1, 1), (1, 1, 0), (0, 1, 0)],
        FaceDir::Down => seq![(0, 0, 0), (1, 0, 0), (1, 0, 1), (0, 0, 1)],
        FaceDir::North => seq![(1, 0, 0), (0, 0, 0), (0, 1, 0), (1, 1, 0)],
        FaceDir::South => seq![(0, 0, 1), (1, 0, 1), (1, 1, 1), (0, 1, 1)],
        FaceDir::West => seq![(0, 0, 0), (0, 0, 1), (0, 1, 1), (0, 1, 0)],
        FaceDir::East => seq![(1, 0, 1), (1, 0, 0), (1, 1, 0), (1, 1, 1)],
    }
}

/// Every face of the block at (x, y, z) is drawn rightly.
proof fn lemma_cell_faces_exposed(chunk: ChunkData, x: int, y: int, z: int)
    requires
        in_chunk(x, y, z),
    ensures
        forall|i: int|
            0 <= i < cell_faces(chunk, x, y, z).len() ==> face_exposed(
                chunk,
                #[trigger] cell_faces(chunk, x, y, z)[i],
            ),
{
    let b = chunk.block(x, y, z);
    if b != BlockType::Air {
        let s = cell_faces(chunk, x, y, z);
        assert forall|i: int| 0 <= i < s.len() implies face_exposed(chunk, #[trigger] s[i]) by {
            let f = s[i];
            assert(f.x == x && f.y == y && f.z == z);
            assert(neighbour(chunk, x, y, z, f.dir) == BlockType::Air);
        }
    }
}

/// The `k`-th block in meshing order lies inside the chunk.
proof fn lemma_mesh_order_in_chunk(k: int)
    requires
        0 <= k < CHUNK_VOLUME,
    ensures
        in_chunk(mesh_x(k), mesh_y(k), mesh_z(k)),
{
    assert(0 <= k / 1024 < 16 && 0 <= (k / 64) % 16 < 16 && 0 <= k % 64 < 64) by (nonlinear_arith)
        requires
            0 <= k < 16384,
    ;
}

/// Every face among those of the first `k` blocks is drawn rightly.
proof fn lemma_faces_upto_exposed(chunk: ChunkData, k: nat)
    requires
        k <= CHUNK_VOLUME,
    ensures
        forall|i: int|
            0 <= i < faces_upto(chunk, k).len() ==> face_exposed(
                chunk,
                #[trigger] faces_upto(chunk, k)[i],
            ),
    decreases k,
{
    if k > 0 {
        let km = (k - 1) as nat;
        lemma_faces_upto_exposed(chunk, km);
        lemma_mesh_order_in_chunk(km as int);
        lemma_cell_faces_exposed(chunk, mesh_x(km as int), mesh_y(km as int), mesh_z(km as int));
        let a = faces_upto(chunk, km);
        let c = cell_faces(chunk, mesh_x(km as int), mesh_y(km as int), mesh_z(km as int));
        assert forall|i: int| 0 <= i < (a + c).len() implies face_exposed(chunk, #[trigger] (a + c)[i]) by {
            if i < a.len() {
                assert((a + c)[i] == a[i]);
            } else {
                assert((a + c)[i] == c[i - a.len()]);
            }
        }
    }
}

/// Culling is sound: each face of a chunk's mesh belongs to a solid block,
/// faces air on its side and carries the block's tile for that side.
pub proof fn lemma_mesh_faces_exposed(chunk: ChunkData)
    ensures
        forall|i: int|
            0 <= i < mesh_faces(chunk).len() ==> face_exposed(chunk, #[trigger] mesh_faces(chunk)[i]),
{
    lemma_faces_upto_exposed(chunk, CHUNK_VOLUME as nat);
}

/// Where the block at local (x, y, z) comes in meshing order.
pub open spec fn mesh_position(x: int, y: int, z: int) -> int {
    x * 1024 + z * 64 + y
}

/// A face among those of the first `j` blocks is among those of the first
/// `k` blocks, for any `k` from `j` on.
proof fn lemma_faces_upto_grows(chunk: ChunkData, j: nat, k: nat, f: Face)
    requires
        j <= k,
        faces_upto(chunk, j).contains(f),
    ensures
        faces_upto(chunk, k).contains(f),
    decreases k - j,
{
    if j < k {
        lemma_faces_upto_grows(chunk, j, (k - 1) as nat, f);
        let a = faces_upto(chunk, (k - 1) as nat);
        let c = cell_faces(chunk, mesh_x(k - 1), mesh_y(k - 1), mesh_z(k - 1));
        let i = choose|i: int| 0 <= i < a.len() && a[i] == f;
        assert((a + c)[i] == f);
    }
}

/// Culling is complete: every side of a solid block that faces air is a
/// face of the chunk's mesh.
pub proof fn lemma_mesh_faces_complete(chunk: ChunkData, x: int, y: int, z: int, dir: FaceDir)
    requires
        in_chunk(x, y, z),
        chunk.block(x, y, z) != BlockType::Air,
        neighbour(chunk, x, y, z, dir) == BlockType::Air,
    ensures
        mesh_faces(chunk).contains(
            Face { x: x as i32, y: y as i32, z: z as i32, dir, tile: face_tile(chunk.block(x, y, z), dir) },
        ),
{
    let m = mesh_position(x, y, z);
    assert(0 <= m < CHUNK_VOLUME && mesh_x(m) == x && mesh_y(m) == y && mesh_z(m) == z)
        by (nonlinear_arith)
        requires
            m == x * 1024 + z * 64 + y,
            0 <= x < 16,
            0 <= y < 64,
            0 <= z < 16,
    ;
    let b = chunk.block(x, y, z);
    let f = Face { x: x as i32, y: y as i32, z: z as i32, dir, tile: face_tile(b, dir) };
    let a = faces_upto(chunk, m as nat);
    let c = cell_faces(chunk, x, y, z);
    let up = face_if_open(chunk, x, y, z, FaceDir::Up, b);
    let down = face_if_open(chunk, x, y, z, FaceDir::Down, b);
    let north = face_if_open(chunk, x, y, z, FaceDir::North, b);
    let south = face_if_open(chunk, x, y, z, FaceDir::South, b);
    let west = face_if_open(chunk, x, y, z, FaceDir::West, b);
    let east = face_if_open(chunk, x, y, z, FaceDir::East, b);
    assert(c == up + down + north + south + west + east);
    let own = face_if_open(chunk, x, y, z, dir, b);
    assert(own == seq![f]);
    assert(c.contains(f)) by {
        let p1 = up;
        let p2 = p1 + down;
        let p3 = p2 + north;
        let p4 = p3 + south;
        let p5 = p4 + west;
        match dir {
            FaceDir::Up => { assert(c[0] == f); },
            FaceDir::Down => { assert(c[p1.len() as int] == f); },
            FaceDir::North => { assert(c[p2.len() as int] == f); },
            FaceDir::South => { assert(c[p3.len() as int] == f); },
            FaceDir::West => { assert(c[p4.len() as int] == f); },
            FaceDir::East => { assert(c[p5.len() as int] == f); },
        }
    }
    let i = choose|i: int| 0 <= i < c.len() && c[i] == f;
    assert(faces_upto(chunk, (m + 1) as nat) == a + c);
    assert((a + c)[a.len() + i] == f);
    assert(faces_upto(chunk, (m + 1) as nat).contains(f));
    lemma_faces_upto_grows(chunk, (m + 1) as nat, CHUNK_VOLUME as nat, f);
}

/// Every triangle index of a chunk mesh names one of its vertices, four per
/// face, and each quad uses only its own four vertices.
pub proof fn lemma_quad_indices_in_range(n: nat, i: int)
    requires
        n <= 6 * CHUNK_VOLUME,
        0 <= i < 6 * n,
    ensures
        quad_indices(n)[i] < 4 * n,
        4 * (i / 6) <= quad_indices(n)[i] < 4 * (i / 6) + 4,
{
    assert(0 <= i / 6 < n && 0 <= i % 6 < 6) by (nonlinear_arith)
        requires
            0 <= i < 6 * n,
    ;
    assert(4 * (i / 6) + 3 < 4 * n) by (nonlinear_arith)
        requires
            0 <= i / 6 < n,
    ;
}

/// The cross product of two integer vectors.
pub open spec fn cross(a: (int, int, int), b: (int, int, int)) -> (int, int, int) {
    (a.1 * b.2 - a.2 * b.1, a.2 * b.0 - a.0 * b.2, a.0 * b.1 - a.1 * b.0)
}

/// The vector from corner `p` to corner `q`.
pub open spec fn edge(p: (i32, i32, i32), q: (i32, i32, i32)) -> (int, int, int) {
    (q.0 - p.0, q.1 - p.1, q.2 - p.2)
}

/// Both triangles of a face, corners (0, 1, 2) and (0, 2, 3) of
/// `corner_offsets_of`, wind counter-clockwise seen from outside: by the
/// right-hand rule their normal is the face's outward direction, of unit
/// length.
pub proof fn lemma_faces_wind_outward(dir: FaceDir)
    ensures
        ({
            let c = corner_offsets_of(dir);
            &&& cross(edge(c[0], c[1]), edge(c[0], c[2])) == dir_offset(dir)
            &&& cross(edge(c[0], c[2]), edge(c[0], c[3])) == dir_offset(dir)
        }),
{
    let c = corner_offsets_of(dir);
    match dir {
        FaceDir::Up => {
            assert(c[0] == (0i32, 1i32, 1i32) && c[1] == (1i32, 1i32, 1i32) && c[2] == (1i32, 1i32, 0i32) && c[3] == (0i32, 1i32, 0i32));
            assert(edge(c[0], c[1]) == (1int, 0int, 0int) && edge(c[0], c[2]) == (1int, 0int, -1int) && edge(c[0], c[3]) == (0int, 0int, -1int));
            assert(cross((1int, 0int, 0int), (1int, 0int, -1int)) == (0int, 1int, 0int) && cross((1int, 0int, -1int), (0int, 0int, -1int)) == (0int, 1int, 0int)) by (nonlinear_arith);
        },
        FaceDir::Down => {
            assert(c[0] == (0i32, 0i32, 0i32) && c[1] == (1i32, 0i32, 0i32) && c[2] == (1i32, 0i32, 1i32) && c[3] == (0i32, 0i32, 1i32));
            assert(edge(c[0], c[1]) == (1int, 0int, 0int) && edge(c[0], c[2]) == (1int, 0int, 1int) && edge(c[0], c[3]) == (0int, 0int, 1int));
            assert(cross((1int, 0int, 0int), (1int, 0int, 1int)) == (0int, -1int, 0int) && cross((1int, 0int, 1int), (0int, 0int, 1int)) == (0int, -1int, 0int)) by (nonlinear_arith);
        },
        FaceDir::North => {
            assert(c[0] == (1i32, 0i32, 0i32) && c[1] == (0i32, 0i32, 0i32) && c[2] == (0i32, 1i32, 0i32) && c[3] == (1i32, 1i32, 0i32));
            assert(edge(c[0], c[1]) == (-1int, 0int, 0int) && edge(c[0], c[2]) == (-1int, 1int, 0int) && edge(c[0], c[3]) == (0int, 1int, 0int));
            assert(cross((-1int, 0int, 0int), (-1int, 1int, 0int)) == (0int, 0int, -1int) && cross((-1int, 1int, 0int), (0int, 1int, 0int)) == (0int, 0int, -1int)) by (nonlinear_arith);
        },
        FaceDir::South => {
            assert(c[0] == (0i32, 0i32, 1i32) && c[1] == (1i32, 0i32, 1i32) && c[2] == (1i32, 1i32, 1i32) && c[3] == (0i32, 1i32, 1i32));
            assert(edge(c[0], c[1]) == (1int, 0int, 0int) && edge(c[0], c[2]) == (1int, 1int, 0int) && edge(c[0], c[3]) == (0int, 1int, 0int));
            assert(cross((1int, 0int, 0int), (1int, 1int, 0int)) == (0int, 0int, 1int) && cross((1int, 1int, 0int), (0int, 1int, 0int)) == (0int, 0int, 1int)) by (nonlinear_arith);
        },
        FaceDir::West => {
            assert(c[0] == (0i32, 0i32, 0i32) && c[1] == (0i32, 0i32, 1i32) && c[2] == (0i32, 1i32, 1i32) && c[3] == (0i32, 1i32, 0i32));
            assert(edge(c[0], c[1]) == (0int, 0int, 1int) && edge(c[0], c[2]) == (0int, 1int, 1int) && edge(c[0], c[3]) == (0int, 1int, 0int));
            assert(cross((0int, 0int, 1int), (0int, 1int, 1int)) == (-1int, 0int, 0int) && cross((0int, 1int, 1int), (0int, 1int, 0int)) == (-1int, 0int, 0int)) by (nonlinear_arith);
        },
        FaceDir::East => {
            assert(c[0] == (1i32, 0i32, 1i32) && c[1] == (1i32, 0i32, 0i32) && c[2] == (1i32, 1i32, 0i32) && c[3] == (1i32, 1i32, 1i32));
            assert(edge(c[0], c[1]) == (0int, 0int, -1int) && edge(c[0], c[2]) == (0int, 1int, -1int) && edge(c[0], c[3]) == (0int, 1int, 0int));
            assert(cross((0int, 0int, -1int), (0int, 1int, -1int)) == (1int, 0int, 0int) && cross((0int, 1int, -1int), (0int, 1int, 0int)) == (1int, 0int, 0int)) by (nonlinear_arith);
        },
    }
}

/// The atlas tiles of block kinds: only grass looks different on its sides,
/// showing its top above and dirt below; every other kind shows one tile on
/// all six sides; the solid kinds' side tiles are all different; and every
/// tile lies in the 4 by 4 atlas.
pub proof fn lemma_tile_table(b: BlockType, c: BlockType, is_top: bool, is_bottom: bool)
    ensures
        !(b is Grass) ==> tile_for(b, is_top, is_bottom) == tile_for(b, false, false),
        tile_for(BlockType::Grass, false, true) == tile_for(BlockType::Dirt, is_top, is_bottom),
        tile_for(BlockType::Grass, true, is_bottom) != tile_for(BlockType::Grass, false, false),
        tile_for(BlockType::Grass, true, is_bottom) != tile_for(BlockType::Grass, false, true),
        b != c && !(b is Air) && !(c is Air) ==> tile_for(b, false, false) != tile_for(c, false, false),
        tile_for(b, is_top, is_bottom) < 16,
{
}

/// Every face of a non-grass block in a chunk's mesh carries the same tile,
/// whatever its side.
pub proof fn lemma_mesh_tiles_side_independent(chunk: ChunkData, i: int, j: int)
    requires
        0 <= i < mesh_faces(chunk).len(),
        0 <= j < mesh_faces(chunk).len(),
        mesh_faces(chunk)[i].x == mesh_faces(chunk)[j].x,
        mesh_faces(chunk)[i].y == mesh_faces(chunk)[j].y,
        mesh_faces(chunk)[i].z == mesh_faces(chunk)[j].z,
        !(chunk.block(
            mesh_faces(chunk)[i].x as int,
            mesh_faces(chunk)[i].y as int,
            mesh_faces(chunk)[i].z as int,
        ) is Grass),
    ensures
        mesh_faces(chunk)[i].tile == mesh_faces(chunk)[j].tile,
{
    lemma_mesh_faces_exposed(chunk);
    let f = mesh_faces(chunk)[i];
    let g = mesh_faces(chunk)[j];
    let b = chunk.block(f.x as int, f.y as int, f.z as int);
    lemma_tile_table(b, b, f.dir is Up, f.dir is Down);
    lemma_tile_table(b, b, g.dir is Up, g.dir is Down);
}

/// Each side's step is one block along one axis, outward: up +y, down -y,
/// north -z, south +z, west -x, east +x.
pub proof fn lemma_dir_offsets()
    ensures
        dir_offset(FaceDir::Up) == (0int, 1int, 0int),
        dir_offset(FaceDir::Down) == (0int, -1int, 0int),
        dir_offset(FaceDir::North) == (0int, 0int, -1int),
        dir_offset(FaceDir::South) == (0int, 0int, 1int),
        dir_offset(FaceDir::West) == (-1int, 0int, 0int),
        dir_offset(FaceDir::East) == (1int, 0int, 0int),
{
}

/// Quad `q` is drawn by indices 6q to 6q + 5, two triangles over its own
/// four vertices 4q to 4q + 3: (4q, 4q + 1, 4q + 2) and (4q, 4q + 2, 4q + 3).
pub proof fn lemma_quad_triangles(n: nat, q: int)
    requires
        n <= 6 * CHUNK_VOLUME,
        0 <= q < n,
    ensures
        quad_indices(n)[6 * q] == 4 * q,
        quad_indices(n)[6 * q + 1] == 4 * q + 1,
        quad_indices(n)[6 * q + 2] == 4 * q + 2,
        quad_indices(n)[6 * q + 3] == 4 * q,
        quad_indices(n)[6 * q + 4] == 4 * q + 2,
        quad_indices(n)[6 * q + 5] == 4 * q + 3,
{
    assert(4 * q + 5 < 4294967296) by (nonlinear_arith)
        requires
            q < 6 * 16384,
    ;
    assert((6 * q + 0) / 6 == q && (6 * q + 0) % 6 == 0) by (nonlinear_arith)
        requires
            0 <= q,
    ;
    assert((6 * q + 1) / 6 == q && (6 * q + 1) % 6 == 1) by (nonlinear_arith)
        requires
            0 <= q,
    ;
    assert((6 * q + 2) / 6 == q && (6 * q + 2) % 6 == 2) by (nonlinear_arith)
        requires
            0 <= q,
    ;
    assert((6 * q + 3) / 6 == q && (6 * q + 3) % 6 == 3) by (nonlinear_arith)
        requires
            0 <= q,
    ;
    assert((6 * q + 4) / 6 == q && (6 * q + 4) % 6 == 4) by (nonlinear_arith)
        requires
            0 <= q,
    ;
    assert((6 * q + 5) / 6 == q && (6 * q + 5) % 6 == 5) by (nonlinear_arith)
        requires
            0 <= q,
    ;
    assert(6 * q + 5 < 6 * n) by (nonlinear_arith)
        requires
            q < n,
    ;
}

} // verus!
