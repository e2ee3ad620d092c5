use symbia::block::{BlockType, ChunkCoord};
use symbia::streaming::{chunks_to_load, chunks_to_unload};
use symbia::sync::{block_key_of, BlockClock, NetAction, PeerSync, SymbiaNetMessage};

fn update(x: i32, y: i32, z: i32, block_id: u8, timestamp: u64) -> SymbiaNetMessage {
    SymbiaNetMessage::BlockUpdate { x, y, z, block_id, timestamp, peer_id: "peer".to_string() }
}

#[test]
fn load_square_in_order() {
    let to_load = chunks_to_load(ChunkCoord { x: 10, z: -3 }, &Vec::new());
    assert_eq!(to_load.len(), 25);
    assert_eq!(to_load[0], ChunkCoord { x: 8, z: -5 });
    assert_eq!(to_load[1], ChunkCoord { x: 8, z: -4 });
    assert_eq!(to_load[5], ChunkCoord { x: 9, z: -5 });
    assert_eq!(to_load[24], ChunkCoord { x: 12, z: -1 });
}

#[test]
fn load_skips_loaded_chunks() {
    let loaded = vec![ChunkCoord { x: 0, z: 0 }, ChunkCoord { x: 2, z: 2 }, ChunkCoord { x: 9, z: 9 }];
    let to_load = chunks_to_load(ChunkCoord { x: 0, z: 0 }, &loaded);
    assert_eq!(to_load.len(), 23);
    assert!(!to_load.contains(&ChunkCoord { x: 0, z: 0 }));
    assert!(!to_load.contains(&ChunkCoord { x: 2, z: 2 }));
    assert!(to_load.contains(&ChunkCoord { x: -2, z: 2 }));
}

#[test]
fn unload_far_chunks_only() {
    let loaded = vec![
        ChunkCoord { x: 0, z: 0 },
        ChunkCoord { x: 4, z: -4 },
        ChunkCoord { x: 5, z: 0 },
        ChunkCoord { x: 0, z: -5 },
        ChunkCoord { x: -9, z: 9 },
    ];
    let to_unload = chunks_to_unload(ChunkCoord { x: 0, z: 0 }, &loaded);
    assert_eq!(to_unload, vec![ChunkCoord { x: 5, z: 0 }, ChunkCoord { x: 0, z: -5 }, ChunkCoord { x: -9, z: 9 }]);
}

#[test]
fn unload_at_extreme_coordinates() {
    let loaded = vec![ChunkCoord { x: i32::MIN, z: 0 }, ChunkCoord { x: i32::MAX, z: 0 }];
    let to_unload = chunks_to_unload(ChunkCoord { x: i32::MAX, z: 0 }, &loaded);
    assert_eq!(to_unload, vec![ChunkCoord { x: i32::MIN, z: 0 }]);
}

#[test]
fn block_keys_are_distinct() {
    assert_ne!(block_key_of(1, 2, 3), block_key_of(3, 2, 1));
    assert_ne!(block_key_of(-1, 0, 0), block_key_of(0, -1, 0));
    assert_eq!(block_key_of(5, 6, 7), block_key_of(5, 6, 7));
}

#[test]
fn clock_timestamp_wins() {
    let mut clock = BlockClock::new();
    assert_eq!(clock.last_timestamp(1, 2, 3), None);
    assert!(clock.accept_update(1, 2, 3, 100));
    assert_eq!(clock.last_timestamp(1, 2, 3), Some(100));
    assert!(!clock.accept_update(1, 2, 3, 100));
    assert!(!clock.accept_update(1, 2, 3, 50));
    assert_eq!(clock.last_timestamp(1, 2, 3), Some(100));
    assert!(clock.accept_update(1, 2, 3, 101));
    assert_eq!(clock.last_timestamp(1, 2, 3), Some(101));
    // other positions have their own clock
    assert!(clock.accept_update(1, 2, 4, 7));
    assert_eq!(clock.last_timestamp(1, 2, 3), Some(101));
}

#[test]
fn clock_converges_whatever_the_order() {
    let mut a = BlockClock::new();
    let mut b = BlockClock::new();
    a.accept_update(0, 0, 0, 5);
    a.accept_update(0, 0, 0, 9);
    b.accept_update(0, 0, 0, 9);
    b.accept_update(0, 0, 0, 5);
    assert_eq!(a.last_timestamp(0, 0, 0), b.last_timestamp(0, 0, 0));
    assert_eq!(a.last_timestamp(0, 0, 0), Some(9));
}

#[test]
fn handle_seed_announcement() {
    let mut s = PeerSync::new(42);
    let msg = SymbiaNetMessage::SeedSync { seed: 7, peer_id: "p".to_string() };
    assert_eq!(s.handle_message(&msg), NetAction::AnnounceSeed(7));
    s.peer_seed = Some(7);
    assert_eq!(s.handle_message(&msg), NetAction::Ignore);
    assert_eq!(s.local_seed, 42);
}

#[test]
fn handle_block_updates() {
    let mut s = PeerSync::new(42);
    assert_eq!(
        s.handle_message(&update(3, 10, -4, 4, 1000)),
        NetAction::ApplyBlock { x: 3, y: 10, z: -4, block: BlockType::Wood }
    );
    // an older edit of the same block is refused
    assert_eq!(s.handle_message(&update(3, 10, -4, 0, 999)), NetAction::Ignore);
    // an edit of the same age too
    assert_eq!(s.handle_message(&update(3, 10, -4, 0, 1000)), NetAction::Ignore);
    // a newer one is applied
    assert_eq!(
        s.handle_message(&update(3, 10, -4, 0, 1001)),
        NetAction::ApplyBlock { x: 3, y: 10, z: -4, block: BlockType::Air }
    );
}

#[test]
fn unknown_block_id_is_recorded_not_applied() {
    let mut s = PeerSync::new(1);
    assert_eq!(s.handle_message(&update(0, 0, 0, 200, 50)), NetAction::Ignore);
    assert_eq!(s.clock.last_timestamp(0, 0, 0), Some(50));
    assert_eq!(s.handle_message(&update(0, 0, 0, 1, 40)), NetAction::Ignore);
}

#[test]
fn newest_edit_is_applied_last_in_either_order() {
    let older = update(4, 4, 4, 1, 10);
    let newer = update(4, 4, 4, 5, 20);
    let mut a = PeerSync::new(0);
    let mut b = PeerSync::new(0);
    let a_actions = vec![a.handle_message(&older), a.handle_message(&newer)];
    let b_actions = vec![b.handle_message(&newer), b.handle_message(&older)];
    let last_applied = |acts: &Vec<NetAction>| acts.iter().rev().find(|x| **x != NetAction::Ignore).cloned();
    let leaves = Some(NetAction::ApplyBlock { x: 4, y: 4, z: 4, block: BlockType::Leaves });
    assert_eq!(last_applied(&a_actions), leaves);
    assert_eq!(last_applied(&b_actions), leaves);
}

#[test]
fn local_edit_beats_older_peer_edit() {
    let mut s = PeerSync::new(0);
    assert!(s.record_local_edit(2, 3, 4, 10));
    assert_eq!(s.clock.last_timestamp(2, 3, 4), Some(10));
    // a peer's edit of the same cell stamped earlier, or at the same time, is refused
    assert_eq!(s.handle_message(&update(2, 3, 4, 1, 5)), NetAction::Ignore);
    assert_eq!(s.handle_message(&update(2, 3, 4, 1, 10)), NetAction::Ignore);
    assert_eq!(s.clock.last_timestamp(2, 3, 4), Some(10));
    // a newer one wins over the local edit
    assert_eq!(
        s.handle_message(&update(2, 3, 4, 1, 11)),
        NetAction::ApplyBlock { x: 2, y: 3, z: 4, block: BlockType::Stone }
    );
}

#[test]
fn local_edit_older_than_peer_edit_is_refused() {
    let mut s = PeerSync::new(0);
    assert_eq!(
        s.handle_message(&update(0, 1, 0, 2, 50)),
        NetAction::ApplyBlock { x: 0, y: 1, z: 0, block: BlockType::Dirt }
    );
    assert!(!s.record_local_edit(0, 1, 0, 40));
    assert!(!s.record_local_edit(0, 1, 0, 50));
    assert_eq!(s.clock.last_timestamp(0, 1, 0), Some(50));
    assert!(s.record_local_edit(0, 1, 0, 51));
    // other cells are independent
    assert!(s.record_local_edit(9, 9, 9, 1));
}

#[test]
fn newest_of_many_edits_wins_in_any_order() {
    let peer_edits = [update(1, 1, 1, 2, 30), update(1, 1, 1, 3, 70), update(1, 1, 1, 6, 50)];
    let orders: [[usize; 3]; 3] = [[0, 1, 2], [2, 1, 0], [1, 2, 0]];
    for order in orders {
        let mut s = PeerSync::new(0);
        assert!(s.record_local_edit(1, 1, 1, 40));
        let mut last = Some(NetAction::ApplyBlock { x: 1, y: 1, z: 1, block: BlockType::Wood });
        for i in order {
            let a = s.handle_message(&peer_edits[i]);
            if a != NetAction::Ignore {
                last = Some(a);
            }
        }
        assert_eq!(last, Some(NetAction::ApplyBlock { x: 1, y: 1, z: 1, block: BlockType::Grass }));
        assert_eq!(s.clock.last_timestamp(1, 1, 1), Some(70));
    }
}
