# Titan Voxel Engine — verified core

The voxel engine's data and meshing logic, verified with Verus.

- `src/chunk.rs` — a chunk of 32 × 256 × 32 voxel ids stored flat; reads outside the
  chunk give air, writes outside it are ignored; terrain columns (grass over dirt).
- `src/greedy.rs` — greedy meshing of a face mask into rectangles, with the proof that
  the rectangles partition the mask's nonzero cells and are never more than them.
- `src/mesher.rs` — the face masks of a chunk for the six directions, the mesh built
  from them (four vertices and two triangles per rectangle), and the merging of meshes.
- `src/coverage.rs` — every exposed voxel face is drawn exactly once, with its id.
- `src/camera.rs`, `src/texture.rs`, `src/assets.rs`, `src/world.rs` — key tracking of
  the camera controller, placeholder texture colours and layer sizes, the PNG signature
  check for downloaded textures, and the world's chunk map.
- `app/` — the window, GPU, floating-point camera, Lua scripting and downloads.

Vertex positions are exact integers in the library; `app/` turns them into `f32` for
the GPU.
