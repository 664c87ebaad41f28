# ray_tracer

A path tracer whose integer and structural core is verified with Verus.

- `src/` is the verified library:
  - `aabb`: points and axis-aligned boxes on an integer grid (union, extension,
    centre, longest axis).
  - `bvh`: the bounding volume hierarchy, built by a median split of the
    objects' centres along the longest axis of their centres' box, with a
    stable insertion sort; `bvh_laws` proves what every built hierarchy is
    (each object in exactly one leaf, bounds that enclose their children,
    the split by centres, logarithmic depth).
  - `sampler`: per-pixel seeds and the `rand` generators seeded from them,
    with the proof that pixels of a row or a column get distinct seeds.
  - `scene`, `settings`: which material and object kinds a scene file
    selects, which material an object refers to, command-line overrides,
    the scene fallback order, and the mapping of render jobs to pixels.
  - `material`, `triangle`, `vec3`, `parquet`: materials and triangles that
    hold their floating-point vectors by bit pattern, and the plank hash of
    the parquet texture.
- `app/` is the program: floating-point geometry, shading, the camera, tone
  mapping, the walk of the hierarchy, the scene file (serde), the command
  line (clap), parallel rendering (rayon) and the PNG output (image).

Object bounds reach the library rounded outward to a grid of 1/65536 of a
scene unit, so the library's boxes always hold the objects they stand for.
