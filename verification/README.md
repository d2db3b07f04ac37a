# portals

A small game with portals, built on Bevy. The decisions the game makes are
kept in a library whose behaviour is stated in contracts and proved with
Verus; the engine-facing systems call into it.

- `src/` — the verified library:
  - `entity_map` — an insertion-ordered map keyed by entity bits;
  - `camera` — the pool of cameras that render portal visions, and the
    primary camera's layers;
  - `environment::portal` — portal links, which portals a body touches and
    when it passes through one, the breadth-first schedule of portal
    visions, and the duplicates drawn of bodies inside portals;
  - `render::atlas` — packing sprites into atlas pages (through the
    `guillotiere` packer);
  - `render::painter` — painter requests and quads (through `vec-belt`),
    pipeline keys, and the batching of quads into draw calls.
- `tests/` — tests of the library on concrete values.
- `app/` — the game itself: Bevy plugins and systems, floating-point
  geometry, GPU resources and channels, all calling the library for the
  decisions.
