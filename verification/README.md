# lowtex

A painter for the textures of low-poly 3D models, with its logic verified by Verus.

`src/` is the library. It holds the document (layers, effects, undo, what is unsaved), strokes
and fills on the surface of a mesh, the display mirror and the hover ghost, looks and presets,
projects, the panel's state, and the unwrap: welding, charts, shared slots, skyline packing and
the atlas. Numbers with a fraction are a type parameter there, and the computations on them come
in as functions; what the library promises holds for every answer they give.

`app/` is around it: float geometry and the camera, files, the GPU, the egui panel, and the
frame that ties them together. File formats and per-texel kernels come in as functions there.

`tests/` runs the library from outside, on integers and on `f32` with `glam`.
