# softrender

A small CPU software rasterizer, split in two.

`src/` is a Verus-verified library holding everything the renderer decides with
integers:

- `color.rs` — 8-bit RGBA colours and their little-endian packing into a `u32`.
- `texture_manager.rs` — every texture's texels in one vector; loading from colours,
  from `u32` words (reinterpreted with `bytemuck`) and from words with the rows
  mirrored; texel reads, with laws that a read gives back what a load stored.
- `obj.rs` — an OBJ reader over bytes: lines, words, `v`/`vt`/`vn` records (their
  numbers are left as spans of the text) and triangle and quad faces turned into
  corners, with the first malformed line reported.
- `geometry.rs` — the unified geometry buffer: each model's vertices and indices one
  after the other, looked up by id, added from an OBJ mesh and removed with the
  models after it moved down; its layout invariant and laws on ids.
- `instancing.rs` — face culling, a triangle's pixel box and the depth-pyramid tiles
  a box falls in.
- `game.rs` — the game state and the camera keys.

`app/` is the program around it: the window (`winit`), the frame buffer
(`softbuffer`), the floating-point vectors, projection, interpolation and depth
tests, and the reading of OBJ files from disk.
