# riverbed

Verified core of a multiplayer voxel game, written in Verus.

`src/` is the library, every function of it verified:

- `face`, `face_mesh`: block faces, quad corners and winding, packed render
  vertices and index buffers.
- `chunk`, `lod`, `greedy`: padded chunk grids, level-of-detail reduction,
  greedy-meshed quads (through `binary-greedy-meshing`) and collision trimeshes.
- `collision`: voxel sweeps that stop a moving box at the first solid layer.
- `messages`, `movement`: player action masks, the fly toggle and movement axes.
- `players`, `streaming`, `collider_sync`, `world_view`: the server's player
  registry and input ordering, per-client chunk streaming, collider cook
  queues and versions, and the client's column unloading.
- `payload`, `chunk_messages`: LZ4 framing (through `lz4`) of chunk messages.
- `keyed`: insertion-ordered maps and sets with verified lookups, used where
  the game keys maps by positions.

`app/` is the dedicated server's entry point and the code around the library
that it cannot hold: floating-point physics, serde/bincode wire types,
channels and worker threads, and the client's concurrent chunk store.

`tests/` exercises the library through its public API.
