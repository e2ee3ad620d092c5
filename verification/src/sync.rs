//! Block edits shared between peers: the messages, and the rule that the
//! edit with the latest timestamp wins.

use std::collections::HashMap;
use vstd::prelude::*;
use crate::block::{BlockType, block_from_id};

verus! {

broadcast use vstd::std_specs::hash::group_hash_axioms;

/// A message peers exchange on the shared topic.
#[derive(Debug, Clone)]
pub enum SymbiaNetMessage {
    /// A peer announces the seed of its world.
    SeedSync { seed: u32, peer_id: String },
    /// A peer set the block at (x, y, z) to the block with wire id
    /// `block_id`, at `timestamp` milliseconds since the Unix epoch.
    BlockUpdate { x: i32, y: i32, z: i32, block_id: u8, timestamp: u64, peer_id: String },
}

/// The key under which the last timestamp of the block at (x, y, z) is
/// kept: x, y and z side by side in one 96-bit number.
pub open spec fn block_key(x: i32, y: i32, z: i32) -> u128 {
    (((x as u32) as u128) << 64u128) | (((y as u32) as u128) << 32u128) | ((z as u32) as u128)
}

/// Distinct block positions have distinct keys.
pub proof fn lemma_block_key_injective(x1: i32, y1: i32, z1: i32, x2: i32, y2: i32, z2: i32)
    ensures
        block_key(x1, y1, z1) == block_key(x2, y2, z2) ==> x1 == x2 && y1 == y2 && z1 == z2,
{
    assert((((x1 as u32) as u128) << 64u128) | (((y1 as u32) as u128) << 32u128) | ((
    z1 as u32) as u128) == (((x2 as u32) as u128) << 64u128) | (((y2 as u32) as u128)
        << 32u128) | ((z2 as u32) as u128) ==> x1 == x2 && y1 == y2 && z1 == z2) by (bit_vector);
}

/// The key of the block at (x, y, z).
pub fn block_key_of(x: i32, y: i32, z: i32) -> (r: u128)
    ensures
        r == block_key(x, y, z),
{
    (((x as u32) as u128) << 64u128) | (((y as u32) as u128) << 32u128) | ((z as u32) as u128)
}

/// An edit stamped `t` for key `k` is newer than everything recorded for
/// `k` in `m`.
pub open spec fn accepts(m: Map<u128, u64>, k: u128, t: u64) -> bool {
    !m.contains_key(k) || t > m[k]
}

/// The record after an edit stamped `t` for key `k` is offered: an accepted
/// edit becomes the last one for its key; a stale one changes nothing.
pub open spec fn record(m: Map<u128, u64>, k: u128, t: u64) -> Map<u128, u64> {
    if accepts(m, k, t) {
        m.insert(k, t)
    } else {
        m
    }
}

/// The last timestamp applied to each block position.
pub struct BlockClock {
    pub last: HashMap<u128, u64>,
}

impl BlockClock {
    /// A clock that has seen no edit.
    pub fn new() -> (r: Self)
        ensures
            r.last@ == Map::<u128, u64>::empty(),
    {
        BlockClock { last: HashMap::new() }
    }

    /// The timestamp of the last edit applied at (x, y, z), if any.
    pub fn last_timestamp(&self, x: i32, y: i32, z: i32) -> (r: Option<u64>)
        ensures
            r == (if self.last@.contains_key(block_key(x, y, z)) {
                Some(self.last@[block_key(x, y, z)])
            } else {
                None
            }),
    {
        let k = block_key_of(x, y, z);
        match self.last.get(&k) {
            Some(t) => Some(*t),
            None => None,
        }
    }

    /// Offers an edit at (x, y, z) stamped `timestamp`.  It is accepted, and
    /// recorded, when it is newer than the last edit applied there; an edit
    /// with the same or an older timestamp is refused.
    pub fn accept_update(&mut self, x: i32, y: i32, z: i32, timestamp: u64) -> (r: bool)
        ensures
            r == accepts(old(self).last@, block_key(x, y, z), timestamp),
            final(self).last@ == record(old(self).last@, block_key(x, y, z), timestamp),
    {
        let k = block_key_of(x, y, z);
        match self.last.get(&k) {
            Some(last) => {
                if timestamp <= *last {
                    return false;
                }
            },
            None => {},
        }
        self.last.insert(k, timestamp);
        true
    }
}

/// What the receiver of a message does with it.
#[derive(Debug, Clone, Copy, PartialEq, Eq, Structural)]
pub enum NetAction {
    /// Nothing to do.
    Ignore,
    /// Tell the player the seed a peer announced.
    AnnounceSeed(u32),
    /// Set the block at (x, y, z) to `block`.
    ApplyBlock { x: i32, y: i32, z: i32, block: BlockType },
}

/// What a peer knows of the network besides its connection: its own seed,
/// the seed of its peer once known, and the last edit applied per block.
pub struct PeerSync {
    pub local_seed: u32,
    pub peer_seed: Option<u32>,
    pub clock: BlockClock,
}

impl PeerSync {
    /// Records an edit made by this peer at (x, y, z), stamped `timestamp`,
    /// under the same rule as edits received from peers: it is accepted,
    /// and becomes the last edit of its position, when it is newer than the
    /// last edit recorded there.  Only an accepted edit is to be applied and
    /// broadcast, so the newest edit wins whichever peer made it.
    pub fn record_local_edit(&mut self, x: i32, y: i32, z: i32, timestamp: u64) -> (r: bool)
        ensures
            final(self).local_seed == old(self).local_seed,
            final(self).peer_seed == old(self).peer_seed,
            r == accepts(old(self).clock.last@, block_key(x, y, z), timestamp),
            final(self).clock.last@ == record(old(self).clock.last@, block_key(x, y, z), timestamp),
    {
        self.clock.accept_update(x, y, z, timestamp)
    }

    /// The state of a peer whose world has seed `local_seed`.
    pub fn new(local_seed: u32) -> (r: Self)
        ensures
            r.local_seed == local_seed,
            r.peer_seed is None,
            r.clock.last@ == Map::<u128, u64>::empty(),
    {
        PeerSync { local_seed, peer_seed: None, clock: BlockClock::new() }
    }

    /// Handles one received message.  A seed announcement is reported while
    /// no peer seed is known.  A block edit is recorded when it is newer
    /// than the last edit applied at its position, whether or not its id
    /// names a block, and applied when it does.
    pub fn handle_message(&mut self, msg: &SymbiaNetMessage) -> (r: NetAction)
        ensures
            final(self).local_seed == old(self).local_seed,
            final(self).peer_seed == old(self).peer_seed,
            match *msg {
                SymbiaNetMessage::SeedSync { seed, .. } => {
                    &&& final(self).clock.last@ == old(self).clock.last@
                    &&& r == (if old(self).peer_seed is None {
                        NetAction::AnnounceSeed(seed)
                    } else {
                        NetAction::Ignore
                    })
                },
                SymbiaNetMessage::BlockUpdate { x, y, z, block_id, timestamp, .. } => {
                    let k = block_key(x, y, z);
                    &&& final(self).clock.last@ == record(old(self).clock.last@, k, timestamp)
                    &&& r == (if accepts(old(self).clock.last@, k, timestamp) && block_from_id(
                        block_id,
                    ) is Some {
                        NetAction::ApplyBlock { x, y, z, block: block_from_id(block_id).unwrap() }
                    } else {
                        NetAction::Ignore
                    })
                },
            },
    {
        match msg {
            SymbiaNetMessage::SeedSync { seed, .. } => {
                if self.peer_seed.is_none() {
                    NetAction::AnnounceSeed(*seed)
                } else {
                    NetAction::Ignore
                }
            },
            SymbiaNetMessage::BlockUpdate { x, y, z, block_id, timestamp, .. } => {
                if !self.clock.accept_update(*x, *y, *z, *timestamp) {
                    return NetAction::Ignore;
                }
                match BlockType::from_u8(*block_id) {
                    Some(block) => NetAction::ApplyBlock { x: *x, y: *y, z: *z, block },
                    None => NetAction::Ignore,
                }
            },
        }
    }
}

/// Timestamp wins: once an edit stamped `t1` is accepted at a position, made
/// here or received, any later edit there stamped `t1` or earlier is refused.
pub proof fn lemma_stale_edit_refused(m: Map<u128, u64>, k: u128, t1: u64, t2: u64)
    requires
        accepts(m, k, t1),
        t2 <= t1,
    ensures
        !accepts(record(m, k, t1), k, t2),
        record(record(m, k, t1), k, t2) == record(m, k, t1),
{
}

/// The recorded timestamp of a position never goes back.
pub proof fn lemma_record_monotone(m: Map<u128, u64>, k: u128, t: u64, j: u128)
    requires
        m.contains_key(j),
    ensures
        record(m, k, t).contains_key(j),
        record(m, k, t)[j] >= m[j],
{
}

/// Peers converge: the record reached from two edits, made here or received
/// from a peer, does not depend on the order in which they come.
pub proof fn lemma_record_commutes(m: Map<u128, u64>, k1: u128, t1: u64, k2: u128, t2: u64)
    ensures
        record(record(m, k1, t1), k2, t2) == record(record(m, k2, t2), k1, t1),
{
    assert(record(record(m, k1, t1), k2, t2) =~= record(record(m, k2, t2), k1, t1));
}

/// After an edit is offered, the record of its position holds the newest
/// of the edit and what was recorded before.
pub proof fn lemma_record_keeps_newest(m: Map<u128, u64>, k: u128, t: u64)
    ensures
        record(m, k, t).contains_key(k),
        record(m, k, t)[k] == (if m.contains_key(k) && m[k] >= t {
            m[k]
        } else {
            t
        }),
{
}

/// Of two edits of one position, the newer is the one applied last in
/// either order of arrival: after the older, the newer is still accepted;
/// after the newer, the older is refused.
pub proof fn lemma_newest_edit_wins(m: Map<u128, u64>, k: u128, t_old: u64, t_new: u64)
    requires
        t_old < t_new,
        accepts(m, k, t_new),
    ensures
        accepts(record(m, k, t_old), k, t_new),
        !accepts(record(m, k, t_new), k, t_old),
{
}

/// A local edit beats every older peer edit: after this peer records its own
/// edit of a position stamped `t_local`, whether or not it was newer than
/// what was recorded, a peer's edit of that position stamped `t_local` or
/// earlier is refused.
pub proof fn lemma_local_edit_refuses_older_peer_edits(
    m: Map<u128, u64>,
    x: i32,
    y: i32,
    z: i32,
    t_local: u64,
    t_peer: u64,
)
    requires
        t_peer <= t_local,
    ensures
        !accepts(record(m, block_key(x, y, z), t_local), block_key(x, y, z), t_peer),
        record(record(m, block_key(x, y, z), t_local), block_key(x, y, z), t_peer) == record(
            m,
            block_key(x, y, z),
            t_local,
        ),
{
}

/// What a peer's edit message does right after this peer recorded its own
/// edit of the same position: an edit stamped at or before the local one is
/// ignored and leaves the record as it is.
pub proof fn lemma_peer_edit_after_local_edit(
    before: PeerSync,
    after_local: PeerSync,
    after_peer: PeerSync,
    x: i32,
    y: i32,
    z: i32,
    t_local: u64,
    msg: SymbiaNetMessage,
    action: NetAction,
)
    requires
        after_local.clock.last@ == record(before.clock.last@, block_key(x, y, z), t_local),
        msg matches SymbiaNetMessage::BlockUpdate { x: mx, y: my, z: mz, timestamp, .. } && mx == x
            && my == y && mz == z && timestamp <= t_local,
        after_peer.clock.last@ == record(
            after_local.clock.last@,
            block_key(x, y, z),
            msg->timestamp,
        ),
        action == (if accepts(after_local.clock.last@, block_key(x, y, z), msg->timestamp)
            && block_from_id(msg->block_id) is Some {
            NetAction::ApplyBlock { x, y, z, block: block_from_id(msg->block_id).unwrap() }
        } else {
            NetAction::Ignore
        }),
    ensures
        action == NetAction::Ignore,
        after_peer.clock.last@ == after_local.clock.last@,
{
}

/// The record after edits of one position are offered in turn, each a
/// (timestamp, block id) pair, whether made here or received from a peer.
pub open spec fn offer_all(m: Map<u128, u64>, k: u128, edits: Seq<(u64, u8)>) -> Map<u128, u64>
    decreases edits.len(),
{
    if edits.len() == 0 {
        m
    } else {
        record(offer_all(m, k, edits.drop_last()), k, edits.last().0)
    }
}

/// The newest timestamp known for position `k` once `edits` are offered:
/// the largest of the recorded one and those of the edits, or -1 when there
/// is none.
pub open spec fn newest_stamp(m: Map<u128, u64>, k: u128, edits: Seq<(u64, u8)>) -> int
    decreases edits.len(),
{
    if edits.len() == 0 {
        if m.contains_key(k) {
            m[k] as int
        } else {
            -1
        }
    } else {
        let before = newest_stamp(m, k, edits.drop_last());
        if edits.last().0 > before {
            edits.last().0 as int
        } else {
            before
        }
    }
}

/// The block last written at position `k` while `edits` are offered in
/// turn: an edit is written when it is accepted and its id names a block.
pub open spec fn last_written(m: Map<u128, u64>, k: u128, edits: Seq<(u64, u8)>) -> Option<BlockType>
    decreases edits.len(),
{
    if edits.len() == 0 {
        None
    } else {
        let before = edits.drop_last();
        let e = edits.last();
        if accepts(offer_all(m, k, before), k, e.0) && block_from_id(e.1) is Some {
            block_from_id(e.1)
        } else {
            last_written(m, k, before)
        }
    }
}

/// Offering edits of one position records the newest timestamp, and leaves
/// every other position as it was.
pub proof fn lemma_offer_all_keeps_newest(m: Map<u128, u64>, k: u128, edits: Seq<(u64, u8)>)
    ensures
        m.contains_key(k) || edits.len() > 0 ==> offer_all(m, k, edits).contains_key(k) && offer_all(
            m,
            k,
            edits,
        )[k] == newest_stamp(m, k, edits),
        !m.contains_key(k) && edits.len() == 0 ==> newest_stamp(m, k, edits) == -1,
        forall|o: u128| o != k ==> #[trigger] offer_all(m, k, edits).contains_key(o) == m.contains_key(o)
            && (m.contains_key(o) ==> offer_all(m, k, edits)[o] == m[o]),
    decreases edits.len(),
{
    if edits.len() > 0 {
        lemma_offer_all_keeps_newest(m, k, edits.drop_last());
    }
}

/// Every edit offered, and what was recorded before, is at most the newest
/// timestamp; and the newest timestamp is one of them.
proof fn lemma_newest_bounds(m: Map<u128, u64>, k: u128, edits: Seq<(u64, u8)>)
    ensures
        forall|j: int| 0 <= j < edits.len() ==> #[trigger] edits[j].0 <= newest_stamp(m, k, edits),
        m.contains_key(k) ==> m[k] <= newest_stamp(m, k, edits),
        newest_stamp(m, k, edits) == -1 || (m.contains_key(k) && newest_stamp(m, k, edits) == m[k])
            || exists|j: int| 0 <= j < edits.len() && #[trigger] edits[j].0 == newest_stamp(m, k, edits),
    decreases edits.len(),
{
    if edits.len() > 0 {
        let pre = edits.drop_last();
        lemma_newest_bounds(m, k, pre);
        assert forall|j: int| 0 <= j < edits.len() implies #[trigger] edits[j].0 <= newest_stamp(
            m,
            k,
            edits,
        ) by {
            if j < pre.len() {
                assert(pre[j] == edits[j]);
            }
        }
        if exists|j: int| 0 <= j < pre.len() && #[trigger] pre[j].0 == newest_stamp(m, k, pre) {
            let j = choose|j: int| 0 <= j < pre.len() && #[trigger] pre[j].0 == newest_stamp(m, k, pre);
            assert(edits[j] == pre[j]);
        }
        assert(edits[edits.len() - 1] == edits.last());
    }
}

/// Timestamp wins over any sequence of edits of one position, made here or
/// received from peers, in any order: let edit `i` be the first one that
/// carries the newest timestamp, newer than what was recorded before.  It
/// is accepted, every edit after it is refused, the record ends with its
/// timestamp, and when its id names a block that block is the last one
/// written.  A local edit followed by peer edits is the case where edit 0
/// is the local one.
pub proof fn lemma_newest_edit_written_last(m: Map<u128, u64>, k: u128, edits: Seq<(u64, u8)>, i: int)
    requires
        0 <= i < edits.len(),
        edits[i].0 == newest_stamp(m, k, edits),
        forall|j: int| 0 <= j < i ==> #[trigger] edits[j].0 < edits[i].0,
        !(m.contains_key(k) && m[k] >= edits[i].0),
    ensures
        accepts(offer_all(m, k, edits.take(i)), k, edits[i].0),
        forall|j: int| i < j < edits.len() ==> !accepts(offer_all(m, k, edits.take(j)), k, #[trigger] edits[j].0),
        offer_all(m, k, edits).contains_key(k),
        offer_all(m, k, edits)[k] == edits[i].0,
        block_from_id(edits[i].1) is Some ==> last_written(m, k, edits) == block_from_id(edits[i].1),
{
    lemma_newest_bounds(m, k, edits);
    let pre = edits.take(i);
    lemma_newest_bounds(m, k, pre);
    lemma_offer_all_keeps_newest(m, k, pre);
    if exists|j: int| 0 <= j < pre.len() && #[trigger] pre[j].0 == newest_stamp(m, k, pre) {
        let j = choose|j: int| 0 <= j < pre.len() && #[trigger] pre[j].0 == newest_stamp(m, k, pre);
        assert(pre[j] == edits[j]);
    }
    assert(newest_stamp(m, k, pre) < edits[i].0);
    lemma_written_after(m, k, edits, i, edits.len() as int);
    assert(edits.take(edits.len() as int) =~= edits);
}

/// From just after edit `i` on, the record holds its timestamp, later edits
/// are refused, and it stays the last block written.
proof fn lemma_written_after(m: Map<u128, u64>, k: u128, edits: Seq<(u64, u8)>, i: int, p: int)
    requires
        0 <= i < p <= edits.len(),
        forall|j: int| 0 <= j < edits.len() ==> #[trigger] edits[j].0 <= edits[i].0,
        accepts(offer_all(m, k, edits.take(i)), k, edits[i].0),
    ensures
        offer_all(m, k, edits.take(p)).contains_key(k),
        offer_all(m, k, edits.take(p))[k] == edits[i].0,
        forall|j: int| i < j < p ==> !accepts(offer_all(m, k, edits.take(j)), k, #[trigger] edits[j].0),
        block_from_id(edits[i].1) is Some ==> last_written(m, k, edits.take(p)) == block_from_id(
            edits[i].1,
        ),
    decreases p - i,
{
    if p == i + 1 {
        assert(edits.take(i + 1).drop_last() =~= edits.take(i));
        assert(edits.take(i + 1).last() == edits[i]);
    } else {
        lemma_written_after(m, k, edits, i, p - 1);
        assert(edits.take(p).drop_last() =~= edits.take(p - 1));
        assert(edits.take(p).last() == edits[p - 1]);
        assert(edits[p - 1].0 <= edits[i].0);
        assert forall|j: int| i < j < p implies !accepts(
            offer_all(m, k, edits.take(j)),
            k,
            #[trigger] edits[j].0,
        ) by {}
    }
}

/// Offering one more edit is one more step of the rule that
/// `record_local_edit` and `handle_message` apply, so a run of those calls
/// on one position is described by `offer_all` and `last_written`.
pub proof fn lemma_offer_one_more(m: Map<u128, u64>, k: u128, edits: Seq<(u64, u8)>, e: (u64, u8))
    ensures
        offer_all(m, k, edits.push(e)) == record(offer_all(m, k, edits), k, e.0),
        last_written(m, k, edits.push(e)) == (if accepts(offer_all(m, k, edits), k, e.0)
            && block_from_id(e.1) is Some {
            block_from_id(e.1)
        } else {
            last_written(m, k, edits)
        }),
{
    assert(edits.push(e).drop_last() =~= edits);
}

} // verus!
