# theta

ProjectTheta is a 2D multiplayer game built on Bevy, Avian2D and a netcode
layer. This crate holds its verified core, proved with Verus, and the runtime
around it.

## Layout

- `src/` — the library, every item verified:
  - `terrain/` — tile and chunk coordinates, chunk layers and their
    run-length encoding, the index of loaded chunks, the voxels of a chunk's
    collider;
  - `data/` — the static game tables (items, weapons, equipment, entities,
    enemies), their lookups and their consistency check;
  - `protocol/` — the token request exchange and the terrain messages;
  - `server/` — which chunks each client is subscribed to, which chunks a
    tick generates and how many links subscribe to each, and what a tick's
    edits send and keep;
  - `client/` — how a batch of terrain messages is folded before it reaches
    the world;
  - `worldgen.rs`, `render.rs`, `sim.rs` — the integer side of world
    generation, the tileset index of a tile, the tick rate and spawn slots;
  - `collections.rs` — Bevy's hash collections, declared to Verus.
- `tests/` — tests of the library.
- `app/` — the Bevy plugins and systems of the client and the server, the
  sockets of the token service, and the floating-point parts of the game
  (movement, noise, camera, data numbers).
