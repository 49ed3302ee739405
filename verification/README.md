# raytrace

A small Monte Carlo path tracer (Möller–Trumbore triangles, next-event
estimation, Russian roulette, a P3 PPM writer and an optional bilateral
post-processing filter).

- `src/` is the verified library: the packed pixel format (`color`), the
  P3 encoding of an image (`ppm`), the neighbourhood the bilateral filter
  reads for a pixel (`filter`), and the depth and light-table decisions of
  the path integrator (`path`). Every function there carries a contract
  proved by Verus, and the laws of each module are stated as proof functions.
- `app/` is the renderer around it: the f32 geometry, camera, materials,
  scene, radiometry and the parallel pixel loop, which call into the library.
- `tests/` runs the library on concrete values.
