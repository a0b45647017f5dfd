# wsarndr

The verified core of a small 2D/3D render system with a Vulkan backend: the
parts that decide and compute, proved with Verus, and the Vulkan, JNI and
floating-point code around them.

- `src/` — the library, verified:
  - `world/chunk.rs`: greedy meshing of a block chunk into quads (one pass per
    face, run merging, occlusion across each face), with the faces' vertex
    geometry.
  - `vg/font.rs`: the glyph atlas — which characters it holds, how a character
    finds its slot, where each glyph sits, how coverage is copied in.
  - `vg/mod.rs`: vertex buffer growth, the translation stack, SPIR-V words.
  - `vg/shape.rs`: packed-colour channels, gradient modes.
  - `vk.rs`: swapchain settings, queue family and memory type choice, layout
    barriers, instance layers and extensions.
  - `renderer.rs`: the UI command queue and the frame state machine.
  - `lib.rs`: native window handles handed over as plain numbers.
- `app/` — Vulkan resources, the JNI entry points, font rasterization and the
  floating-point drawing code, built on the library.
- `tests/` — tests of the library.
