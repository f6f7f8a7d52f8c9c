# ox_core

The simulation core of a small voxel building game, written in Verus and
proved against its contracts.

## Layout

- `src/` — the verified library:
  - `blocks`: the block registry (render kind, collision, occlusion, material, tiles).
  - `generation`: chunk storage and the generation pipeline (terrain, caves, water,
    trees) as exact functions of per-chunk inputs; the bedrock floor is proved to
    survive every stage.
  - `world`: the chunk table keyed by packed chunk coordinates, block reads and edits,
    chunk generation on demand, and the padded neighbourhood the mesher reads.
  - `mesher`: which faces of a chunk are drawn, their tiles and their per-corner
    ambient occlusion.
  - `stream`: the nearest-first streaming order, the per-frame generation and meshing
    budget, and unloading of far chunks.
  - `game`, `input`, `menu`, `screens`, `shell`: gameplay actions, key and mouse translation,
    menu buttons, the screen stack and what the window shell does with each event.
  - `atlas`, `cracks`, `audio`, `digest`, `rng`, `noise`, `session`: texture layout,
    break-progress overlay, voice bookkeeping of the mixer, FNV-1a, the shared
    generator and the integer lattice hash.
- `tests/` — executable tests of the library.
- `app/` — the headless driver and everything floating point: noise sums and terrain
  heights, tile painting and crack walks, vertex building, player physics, ray
  casting, debris and the game clock.
