# mesh

A small retained-mode UI toolkit drawn with wgpu. The library under `src/` is
written in Verus and holds the parts whose behaviour is proved:

- `color`: RGBA colours and how `u32` (little-endian) and `i32` (big-endian)
  words are read as colours.
- `data`: the vertex and index batches gathered for one draw call; indices of
  each batch are shifted so they keep pointing at that batch's vertices.
- `font`: packing rendered glyph bitmaps into a square texture atlas, and the
  power-of-two side of that atlas.
- `context`: the queue of pending input events and the window state shared by
  the widgets.
- `runtime`: which effect depends on which signal: a read inside an effect
  subscribes it, and a changed signal names exactly its subscribers, each once,
  for the program to run.
- `bx`: percentages for relative box sizes.

`app/` is the program around it: window and event loop (tao), GPU passes
(wgpu), glyph rendering (freetype), floating-point layout and the widgets.
