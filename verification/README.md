# Symbia

A voxel world shared between peers on a local network.

`src/` is the verified library (Verus):

- `block` — block kinds and their wire ids, coordinates, the block storage of a chunk.
- `terrain` — how a chunk is layered from the surface height of each column.
- `chunk_world` — the loaded chunks of a world: reading blocks at world positions,
  editing them (with the chunks whose meshes must be rebuilt), ray and box queries,
  and the edits a click makes.
- `streaming` — which chunks to load and unload around the player.
- `sync` — the network messages and the rule that the newest edit of a block wins, whether
  it was made here or by a peer.
- `mesh` — the visible faces of a chunk and their triangle indices.
- `atlas` — the built-in block texture atlas.
- `controls` — cursor capture, the player's animation choice, HUD settings.

`app/` is the Bevy client and the libp2p node around it: window, rendering, floating-point
physics and particles, Perlin terrain heights, and the network I/O.
