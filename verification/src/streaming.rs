//! Which chunks to load and which to unload as the player moves.

use vstd::prelude::*;
use crate::block::ChunkCoord;

verus! {

/// Chunks within this many chunks of the player's chunk, on both axes, are
/// loaded.
pub const SPAWN_DISTANCE: i32 = 2;

/// Chunks farther than this many chunks from the player's chunk, on either
/// axis, are unloaded.
pub const UNLOAD_DISTANCE: i32 = 4;

/// The chunks around `center` that must be loaded, dx from -2 to 2 in the
/// outer order and dz from -2 to 2 in the inner order.
pub open spec fn spawn_square(center: ChunkCoord) -> Seq<ChunkCoord> {
    Seq::new(
        25,
        |i: int|
            ChunkCoord {
                x: (center.x + (i / 5 - SPAWN_DISTANCE)) as i32,
                z: (center.z + (i % 5 - SPAWN_DISTANCE)) as i32,
            },
    )
}

/// Whether `c` lies within the spawn distance of `center` on both axes.
pub open spec fn in_spawn_range(center: ChunkCoord, c: ChunkCoord) -> bool {
    &&& center.x - SPAWN_DISTANCE <= c.x <= center.x + SPAWN_DISTANCE
    &&& center.z - SPAWN_DISTANCE <= c.z <= center.z + SPAWN_DISTANCE
}

/// Whether `c` lies beyond the unload distance of `center` on some axis.
pub open spec fn too_far(center: ChunkCoord, c: ChunkCoord) -> bool {
    ||| c.x - center.x > UNLOAD_DISTANCE
    ||| center.x - c.x > UNLOAD_DISTANCE
    ||| c.z - center.z > UNLOAD_DISTANCE
    ||| center.z - c.z > UNLOAD_DISTANCE
}

/// Whether the whole spawn square around `center` has i32 coordinates.
pub open spec fn spawn_square_fits(center: ChunkCoord) -> bool {
    &&& i32::MIN + SPAWN_DISTANCE <= center.x <= i32::MAX - SPAWN_DISTANCE
    &&& i32::MIN + SPAWN_DISTANCE <= center.z <= i32::MAX - SPAWN_DISTANCE
}

/// Whether `c` is one of `cs`.
fn contains_coord(cs: &Vec<ChunkCoord>, c: ChunkCoord) -> (r: bool)
    ensures
        r == cs@.contains(c),
{
    let mut i: usize = 0;
    while i < cs.len()
        invariant
            i <= cs.len(),
            forall|j: int| 0 <= j < i ==> cs@[j] != c,
        decreases cs.len() - i,
    {
        if cs[i] == c {
            assert(cs@[i as int] == c);
            return true;
        }
        i = i + 1;
    }
    false
}

/// The chunks of the spawn square around `center` that are not loaded yet,
/// in spawn-square order.
pub fn chunks_to_load(center: ChunkCoord, loaded: &Vec<ChunkCoord>) -> (r: Vec<ChunkCoord>)
    requires
        spawn_square_fits(center),
    ensures
        r@ == spawn_square(center).filter(|c: ChunkCoord| !loaded@.contains(c)),
        forall|c: ChunkCoord| #[trigger] r@.contains(c) <==> (!loaded@.contains(c) && center.x - 2
            <= c.x <= center.x + 2 && center.z - 2 <= c.z <= center.z + 2),
        forall|i: int, j: int| 0 <= i < j < r@.len() ==> coord_before(r@[i], r@[j]),
{
    let ghost pred = |c: ChunkCoord| !loaded@.contains(c);
    let ghost square = spawn_square(center);
    let mut r: Vec<ChunkCoord> = Vec::new();
    let mut i: usize = 0;
    while i < 25
        invariant
            i <= 25,
            spawn_square_fits(center),
            square == spawn_square(center),
            pred == (|c: ChunkCoord| !loaded@.contains(c)),
            r@ == square.take(i as int).filter(pred),
        decreases 25 - i,
    {
        let dx = (i / 5) as i32 - SPAWN_DISTANCE;
        let dz = (i % 5) as i32 - SPAWN_DISTANCE;
        let c = ChunkCoord { x: center.x + dx, z: center.z + dz };
        assert(c == square[i as int]);
        proof {
            reveal_with_fuel(Seq::filter, 1);
            assert(square.take(i + 1).drop_last() =~= square.take(i as int));
        }
        if !contains_coord(loaded, c) {
            r.push(c);
        }
        i = i + 1;
    }
    assert(square.take(25) =~= square);
    proof {
        lemma_load_list(center, loaded@);
    }
    r
}

/// The loaded chunks that lie beyond the unload distance of `center`, in
/// the order they are given.
pub fn chunks_to_unload(center: ChunkCoord, loaded: &Vec<ChunkCoord>) -> (r: Vec<ChunkCoord>)
    ensures
        r@ == loaded@.filter(|c: ChunkCoord| too_far(center, c)),
        forall|c: ChunkCoord| #[trigger] r@.contains(c) <==> (loaded@.contains(c) && (c.x - center.x
            > 4 || center.x - c.x > 4 || c.z - center.z > 4 || center.z - c.z > 4)),
        r@.len() <= loaded@.len(),
{
    let ghost pred = |c: ChunkCoord| too_far(center, c);
    let mut r: Vec<ChunkCoord> = Vec::new();
    let mut i: usize = 0;
    while i < loaded.len()
        invariant
            i <= loaded.len(),
            pred == (|c: ChunkCoord| too_far(center, c)),
            r@ == loaded@.take(i as int).filter(pred),
        decreases loaded.len() - i,
    {
        let c = loaded[i];
        proof {
            reveal_with_fuel(Seq::filter, 1);
            assert(loaded@.take(i + 1).drop_last() =~= loaded@.take(i as int));
        }
        let dx = c.x as i64 - center.x as i64;
        let dz = c.z as i64 - center.z as i64;
        if dx > UNLOAD_DISTANCE as i64 || -dx > UNLOAD_DISTANCE as i64 || dz > UNLOAD_DISTANCE as i64
            || -dz > UNLOAD_DISTANCE as i64 {
            r.push(c);
        }
        i = i + 1;
    }
    assert(loaded@.take(loaded.len() as int) =~= loaded@);
    proof {
        lemma_unload_list(center, loaded@);
    }
    r
}

/// Every chunk of the spawn square lies in spawn range, and every chunk in
/// spawn range is in the spawn square.
pub proof fn lemma_spawn_square_is_range(center: ChunkCoord, c: ChunkCoord)
    requires
        spawn_square_fits(center),
    ensures
        spawn_square(center).contains(c) <==> in_spawn_range(center, c),
{
    let sq = spawn_square(center);
    if in_spawn_range(center, c) {
        let i = (c.x - center.x + 2) * 5 + (c.z - center.z + 2);
        assert(i / 5 == c.x - center.x + 2 && i % 5 == c.z - center.z + 2) by (nonlinear_arith)
            requires
                i == (c.x - center.x + 2) * 5 + (c.z - center.z + 2),
                0 <= c.x - center.x + 2 < 5,
                0 <= c.z - center.z + 2 < 5,
        ;
        assert(sq[i] == c);
    }
    if sq.contains(c) {
        let i = choose|i: int| 0 <= i < sq.len() && sq[i] == c;
        assert(0 <= i / 5 < 5 && 0 <= i % 5 < 5) by (nonlinear_arith)
            requires
                0 <= i < 25,
        ;
    }
}

/// After loading, the whole spawn square is covered: each of its chunks was
/// loaded already or is among the chunks to load, and none of the chunks to
/// load was loaded already.
pub proof fn lemma_load_covers_square(center: ChunkCoord, loaded: Seq<ChunkCoord>, c: ChunkCoord)
    requires
        spawn_square_fits(center),
        in_spawn_range(center, c),
    ensures
        loaded.contains(c) || spawn_square(center).filter(|o: ChunkCoord| !loaded.contains(o)).contains(c),
        spawn_square(center).filter(|o: ChunkCoord| !loaded.contains(o)).contains(c) ==> !loaded.contains(c),
{
    broadcast use vstd::seq_lib::group_filter_ensures;
    let sq = spawn_square(center);
    lemma_spawn_square_is_range(center, c);
    let i = choose|i: int| 0 <= i < sq.len() && sq[i] == c;
    if !loaded.contains(c) {
        sq.lemma_filter_contains(|o: ChunkCoord| !loaded.contains(o), i);
    }
    let f = sq.filter(|o: ChunkCoord| !loaded.contains(o));
    if f.contains(c) {
        let j = choose|j: int| 0 <= j < f.len() && f[j] == c;
        sq.lemma_filter_pred(|o: ChunkCoord| !loaded.contains(o), j);
    }
}

/// A chunk within spawn range is never unloaded, so a chunk that was just
/// loaded stays loaded while the player stays in its chunk.
pub proof fn lemma_spawn_range_never_unloaded(center: ChunkCoord, loaded: Seq<ChunkCoord>, c: ChunkCoord)
    requires
        in_spawn_range(center, c),
    ensures
        !loaded.filter(|o: ChunkCoord| too_far(center, o)).contains(c),
{
    let f = loaded.filter(|o: ChunkCoord| too_far(center, o));
    if f.contains(c) {
        let j = choose|j: int| 0 <= j < f.len() && f[j] == c;
        loaded.lemma_filter_pred(|o: ChunkCoord| too_far(center, o), j);
    }
}

/// `a` comes before `b` in the order chunks are loaded: by x, then by z.
pub open spec fn coord_before(a: ChunkCoord, b: ChunkCoord) -> bool {
    a.x < b.x || (a.x == b.x && a.z < b.z)
}

/// A filtered sequence keeps its elements in order.
proof fn lemma_filter_keeps_order(s: Seq<ChunkCoord>, pred: spec_fn(ChunkCoord) -> bool)
    requires
        forall|i: int, j: int| 0 <= i < j < s.len() ==> coord_before(s[i], s[j]),
    ensures
        forall|i: int, j: int|
            0 <= i < j < s.filter(pred).len() ==> coord_before(s.filter(pred)[i], s.filter(pred)[j]),
    decreases s.len(),
{
    reveal_with_fuel(Seq::filter, 1);
    if s.len() > 0 {
        let pre = s.drop_last();
        lemma_filter_keeps_order(pre, pred);
        let sub = pre.filter(pred);
        let f = s.filter(pred);
        assert forall|i: int, j: int| 0 <= i < j < f.len() implies coord_before(f[i], f[j]) by {
            if pred(s.last()) && j == f.len() - 1 {
                assert(sub.contains(sub[i]));
                pre.lemma_filter_contains_rev(pred, sub[i]);
                let k = choose|k: int| 0 <= k < pre.len() && pre[k] == sub[i];
                assert(pre[k] == s[k]);
                assert(coord_before(s[k], s[s.len() - 1]));
            } else {
                assert(f[i] == sub[i] && f[j] == sub[j]);
            }
        }
    }
}

/// The chunks to load around `center` are exactly the chunks within two
/// chunks of it on both axes that are not loaded, each once, ordered by x
/// and then by z.
pub proof fn lemma_load_list(center: ChunkCoord, loaded: Seq<ChunkCoord>)
    requires
        spawn_square_fits(center),
    ensures
        ({
            let r = spawn_square(center).filter(|c: ChunkCoord| !loaded.contains(c));
            &&& forall|c: ChunkCoord| #[trigger] r.contains(c) <==> (!loaded.contains(c) && center.x
                - 2 <= c.x <= center.x + 2 && center.z - 2 <= c.z <= center.z + 2)
            &&& forall|i: int, j: int| 0 <= i < j < r.len() ==> coord_before(r[i], r[j])
        }),
{
    let pred = |c: ChunkCoord| !loaded.contains(c);
    let sq = spawn_square(center);
    let r = sq.filter(pred);
    assert forall|i: int, j: int| 0 <= i < j < sq.len() implies coord_before(sq[i], sq[j]) by {
        assert(i / 5 < j / 5 || (i / 5 == j / 5 && i % 5 < j % 5)) by (nonlinear_arith)
            requires
                0 <= i < j,
        ;
    }
    lemma_filter_keeps_order(sq, pred);
    assert forall|c: ChunkCoord| #[trigger] r.contains(c) <==> (!loaded.contains(c) && center.x - 2
        <= c.x <= center.x + 2 && center.z - 2 <= c.z <= center.z + 2) by {
        lemma_spawn_square_is_range(center, c);
        if r.contains(c) {
            sq.lemma_filter_contains_rev(pred, c);
            let j = choose|j: int| 0 <= j < r.len() && r[j] == c;
            sq.lemma_filter_pred(pred, j);
        }
        if !loaded.contains(c) && in_spawn_range(center, c) {
            let i = choose|i: int| 0 <= i < sq.len() && sq[i] == c;
            sq.lemma_filter_contains(pred, i);
        }
    }
}

/// The chunks to unload are exactly the loaded chunks more than four chunks
/// from `center` on some axis, in either direction.
pub proof fn lemma_unload_list(center: ChunkCoord, loaded: Seq<ChunkCoord>)
    ensures
        ({
            let r = loaded.filter(|c: ChunkCoord| too_far(center, c));
            &&& forall|c: ChunkCoord| #[trigger] r.contains(c) <==> (loaded.contains(c) && (c.x
                - center.x > 4 || center.x - c.x > 4 || c.z - center.z > 4 || center.z - c.z > 4))
            &&& r.len() <= loaded.len()
        }),
{
    let pred = |c: ChunkCoord| too_far(center, c);
    let r = loaded.filter(pred);
    loaded.lemma_filter_len(pred);
    assert forall|c: ChunkCoord| #[trigger] r.contains(c) <==> (loaded.contains(c) && (c.x
        - center.x > 4 || center.x - c.x > 4 || c.z - center.z > 4 || center.z - c.z > 4)) by {
        if r.contains(c) {
            loaded.lemma_filter_contains_rev(pred, c);
            let j = choose|j: int| 0 <= j < r.len() && r[j] == c;
            loaded.lemma_filter_pred(pred, j);
        }
        if loaded.contains(c) && (c.x - center.x > 4 || center.x - c.x > 4 || c.z - center.z > 4
            || center.z - c.z > 4) {
            let i = choose|i: int| 0 <= i < loaded.len() && loaded[i] == c;
            loaded.lemma_filter_contains(pred, i);
        }
    }
}

} // verus!
