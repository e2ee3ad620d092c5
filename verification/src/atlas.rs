//! The built-in block texture atlas, used when no atlas image is found: a
//! 4 by 4 grid of flat or speckled colour tiles.

use vstd::prelude::*;

verus! {

/// Width and height of the atlas, in pixels.
pub const ATLAS_SIZE: usize = 1024;

/// Width and height of one tile of the atlas, in pixels.
pub const ATLAS_TILE: usize = 256;

/// Number of bytes of the atlas: four (red, green, blue, alpha) per pixel.
pub const ATLAS_BYTES: usize = 4194304;

/// The speckle of the pixel (tx, ty) of a tile, from 0 to 31.
pub open spec fn speckle(tx: u32, ty: u32) -> u32 {
    (((tx * 13) as u32) ^ ((ty * 17) as u32)) & 31u32
}

/// A colour lightened by a speckle.
pub open spec fn speckled(r: int, g: int, b: int, n: u32) -> (u8, u8, u8) {
    ((r + n) as u8, (g + n) as u8, (b + n) as u8)
}

/// The colour of atlas pixel (px, py).  Row 0: grass side (dirt under a
/// band of grass), grass top, a flat green, speckled dirt.  Row 1: speckled
/// stone, grey, sand, dark grey.  Row 2: bedrock, dark slate, wood, light
/// wood.  Row 3: speckled leaves, light green, white, off-white.
pub open spec fn atlas_rgb(px: int, py: int) -> (u8, u8, u8) {
    let col = px / 256;
    let row = py / 256;
    let tx = px % 256;
    let ty = py % 256;
    let n = speckle(tx as u32, ty as u32);
    if row == 0 {
        if col == 0 {
            if ty < 64 {
                (34, 139, 34)
            } else {
                (101, 67, 33)
            }
        } else if col == 1 {
            (34, 139, 34)
        } else if col == 2 {
            (50, 150, 50)
        } else {
            speckled(101, 67, 33, n)
        }
    } else if row == 1 {
        if col == 0 {
            speckled(120, 120, 125, n)
        } else if col == 1 {
            (128, 128, 128)
        } else if col == 2 {
            (210, 180, 140)
        } else {
            (100, 100, 100)
        }
    } else if row == 2 {
        if col == 0 {
            (40, 40, 45)
        } else if col == 1 {
            (50, 50, 55)
        } else if col == 2 {
            (90, 50, 20)
        } else {
            (140, 100, 60)
        }
    } else {
        if col == 0 {
            speckled(20, 120, 40, n)
        } else if col == 1 {
            (50, 180, 50)
        } else if col == 2 {
            (255, 255, 255)
        } else {
            (240, 240, 240)
        }
    }
}

/// Byte `j` of the atlas, pixels row by row, each as red, green, blue and
/// an opaque alpha.
pub open spec fn atlas_byte(j: int) -> u8 {
    let p = j / 4;
    let rgb = atlas_rgb(p % 1024, p / 1024);
    let c = j % 4;
    if c == 0 {
        rgb.0
    } else if c == 1 {
        rgb.1
    } else if c == 2 {
        rgb.2
    } else {
        255
    }
}

/// The speckle of a tile pixel.
fn speckle_of(tx: u32, ty: u32) -> (r: u32)
    requires
        tx < 256,
        ty < 256,
    ensures
        r == speckle(tx, ty),
        r <= 31,
{
    let r = ((tx * 13) ^ (ty * 17)) & 31;
    assert(((tx * 13) as u32 ^ (ty * 17) as u32) & 31u32 <= 31u32) by (bit_vector);
    r
}

/// A colour lightened by a speckle.
fn speckle_rgb(r: u8, g: u8, b: u8, n: u32) -> (c: (u8, u8, u8))
    requires
        r + n <= 255,
        g + n <= 255,
        b + n <= 255,
    ensures
        c == speckled(r as int, g as int, b as int, n),
{
    let n8 = n as u8;
    (r + n8, g + n8, b + n8)
}

/// The colour of atlas pixel (px, py).
pub fn atlas_pixel(px: u32, py: u32) -> (c: (u8, u8, u8))
    requires
        px < 1024,
        py < 1024,
    ensures
        c == atlas_rgb(px as int, py as int),
{
    let col = px / 256;
    let row = py / 256;
    let tx = px % 256;
    let ty = py % 256;
    let n = speckle_of(tx, ty);
    if row == 0 {
        if col == 0 {
            if ty < 64 {
                (34, 139, 34)
            } else {
                (101, 67, 33)
            }
        } else if col == 1 {
            (34, 139, 34)
        } else if col == 2 {
            (50, 150, 50)
        } else {
            speckle_rgb(101, 67, 33, n)
        }
    } else if row == 1 {
        if col == 0 {
            speckle_rgb(120, 120, 125, n)
        } else if col == 1 {
            (128, 128, 128)
        } else if col == 2 {
            (210, 180, 140)
        } else {
            (100, 100, 100)
        }
    } else if row == 2 {
        if col == 0 {
            (40, 40, 45)
        } else if col == 1 {
            (50, 50, 55)
        } else if col == 2 {
            (90, 50, 20)
        } else {
            (140, 100, 60)
        }
    } else {
        if col == 0 {
            speckle_rgb(20, 120, 40, n)
        } else if col == 1 {
            (50, 180, 50)
        } else if col == 2 {
            (255, 255, 255)
        } else {
            (240, 240, 240)
        }
    }
}

/// The pixels of the built-in atlas, row by row, four bytes each.
pub fn block_atlas_rgba() -> (r: Vec<u8>)
    ensures
        r.len() == ATLAS_BYTES,
        forall|j: int| 0 <= j < ATLAS_BYTES ==> #[trigger] r@[j] == atlas_byte(j),
{
    let total: usize = ATLAS_SIZE * ATLAS_SIZE;
    let mut r: Vec<u8> = Vec::with_capacity(ATLAS_BYTES);
    let mut p: usize = 0;
    while p < total
        invariant
            total == 1048576,
            p <= total,
            r.len() == 4 * p,
            forall|j: int| 0 <= j < 4 * p ==> #[trigger] r@[j] == atlas_byte(j),
        decreases total - p,
    {
        let px = (p % ATLAS_SIZE) as u32;
        let py = (p / ATLAS_SIZE) as u32;
        let c = atlas_pixel(px, py);
        let ghost base = 4 * p as int;
        proof {
            assert((base + 0) / 4 == p && (base + 0) % 4 == 0 && (base + 1) / 4 == p && (base + 1) % 4
                == 1 && (base + 2) / 4 == p && (base + 2) % 4 == 2 && (base + 3) / 4 == p && (base
                + 3) % 4 == 3) by (nonlinear_arith)
                requires
                    base == 4 * p,
            ;
        }
        r.push(c.0);
        r.push(c.1);
        r.push(c.2);
        r.push(255);
        assert forall|j: int| 0 <= j < 4 * (p + 1) implies #[trigger] r@[j] == atlas_byte(j) by {
            if j >= base {
                assert(j == base || j == base + 1 || j == base + 2 || j == base + 3);
            }
        }
        p = p + 1;
    }
    r
}

/// The colours of the atlas, tile by tile (tile t is column t % 4, row
/// t / 4): the grass-side tile is green over its top 64 rows and brown
/// below; tiles 3, 4 and 12 (dirt, stone, leaves) are a base colour
/// lightened by the same amount, at most 31, on all three channels; every
/// other tile is one flat colour.  In particular the bedrock tile 8 is
/// (40, 40, 45) throughout.
pub proof fn lemma_atlas_tiles(px: int, py: int)
    requires
        0 <= px < 1024,
        0 <= py < 1024,
    ensures
        ({
            let t = (py / 256) * 4 + px / 256;
            let c = atlas_rgb(px, py);
            &&& t == 0 && py % 256 < 64 ==> c == (34u8, 139u8, 34u8)
            &&& t == 0 && py % 256 >= 64 ==> c == (101u8, 67u8, 33u8)
            &&& t == 1 ==> c == (34u8, 139u8, 34u8)
            &&& t == 2 ==> c == (50u8, 150u8, 50u8)
            &&& t == 5 ==> c == (128u8, 128u8, 128u8)
            &&& t == 6 ==> c == (210u8, 180u8, 140u8)
            &&& t == 7 ==> c == (100u8, 100u8, 100u8)
            &&& t == 8 ==> c == (40u8, 40u8, 45u8)
            &&& t == 9 ==> c == (50u8, 50u8, 55u8)
            &&& t == 10 ==> c == (90u8, 50u8, 20u8)
            &&& t == 11 ==> c == (140u8, 100u8, 60u8)
            &&& t == 13 ==> c == (50u8, 180u8, 50u8)
            &&& t == 14 ==> c == (255u8, 255u8, 255u8)
            &&& t == 15 ==> c == (240u8, 240u8, 240u8)
            &&& t == 3 ==> 0 <= c.0 - 101 <= 31 && c.1 - 67 == c.0 - 101 && c.2 - 33 == c.0 - 101
            &&& t == 4 ==> 0 <= c.0 - 120 <= 31 && c.1 - 120 == c.0 - 120 && c.2 - 125 == c.0 - 120
            &&& t == 12 ==> 0 <= c.0 - 20 <= 31 && c.1 - 120 == c.0 - 20 && c.2 - 40 == c.0 - 20
        }),
{
    let tx = px % 256;
    let ty = py % 256;
    let a = tx as u32;
    let b = ty as u32;
    assert(((a * 13) as u32 ^ (b * 17) as u32) & 31u32 <= 31u32) by (bit_vector);
    assert(speckle(a, b) <= 31);
}

/// Every pixel of the atlas is opaque.
pub proof fn lemma_atlas_opaque(j: int)
    requires
        0 <= j < ATLAS_BYTES,
        j % 4 == 3,
    ensures
        atlas_byte(j) == 255,
{
}

/// The atlas is stored row by row, pixel p being bytes 4p to 4p + 3: red,
/// green, blue, then alpha.
pub proof fn lemma_atlas_layout(p: int)
    requires
        0 <= p < 1048576,
    ensures
        atlas_byte(4 * p) == atlas_rgb(p % 1024, p / 1024).0,
        atlas_byte(4 * p + 1) == atlas_rgb(p % 1024, p / 1024).1,
        atlas_byte(4 * p + 2) == atlas_rgb(p % 1024, p / 1024).2,
        atlas_byte(4 * p + 3) == 255,
{
    assert((4 * p) / 4 == p && (4 * p) % 4 == 0 && (4 * p + 1) / 4 == p && (4 * p + 1) % 4 == 1
        && (4 * p + 2) / 4 == p && (4 * p + 2) % 4 == 2 && (4 * p + 3) / 4 == p && (4 * p + 3) % 4
        == 3) by (nonlinear_arith);
}

} // verus!
