# ternary_surface_memory

A 2D surface of trits (-1, 0, +1) with row/column addressing, boundary handling
(clamp, wrap, mirror), region-to-region copy and fill, verified with Verus.

- `src/trit.rs`: `Trit` and its integer conversions.
- `src/address.rs`: `SurfaceAddress` and the row-major index.
- `src/boundary.rs`: `BoundaryMode`, where each mode sends a coordinate, and its laws.
- `src/view.rs`: `SurfaceView`, the mathematical model of a surface, and the laws
  of reading after writing, filling and copying.
- `src/surface.rs`: `SurfaceMemory`, whose operations are specified over `SurfaceView`.
- `app/lib.rs`: the floating-point parts (trit to float, rounding to the nearest trit,
  bilinear interpolation) built on the verified corner reads.
