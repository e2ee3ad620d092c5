//! Verified core of the Symbia voxel world: block and chunk data, terrain
//! layering, the loaded-chunk world with its edits, mesh face culling, the
//! block texture atlas, peer-to-peer edit ordering and the small decision
//! rules of the client.

pub mod block;
pub mod terrain;
pub mod chunk_world;
pub mod streaming;
pub mod sync;
pub mod mesh;
pub mod atlas;
pub mod controls;
