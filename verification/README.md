# face_topology

The hex face topology of a strategy map, and the generation rules around it,
as a library verified with Verus.

Every tile of the map is a hexagonal face. Neighboring faces share their
corners and their sides: each shared corner is identified by a canonical key
naming the three cells that meet there, and each side is a pair of twin
half-edges. Corners are displaced by a deterministic fixed-point deformation
law (per-corner hashing, a correlated coarse field and a magnitude-preserving
blend with a reliability floor), so that generation is bit-for-bit
reproducible.

## Layout

- `src/` — the verified library.
  - `hex_coord`, `map_layout`, `sorted_set`, `types`: coordinates, the tile
    layout kept as an ascending set, and identifier types.
  - `corner_key`, `profiles`, `blend`, `blend_diagnostics`, `blend_policy`,
    `fixed_point`: canonical corner keys, corner seeds and the fixed-point
    deformation law; `blend_laws` states what the reliability floor
    guarantees.
  - `topology`, `validation`, `logical_adjacency`, `fingerprint`: assembly of
    the half-edge structure, complete structural validation and stable
    fingerprints; `topology_laws` and `adjacency_laws` prove that every
    assembled topology is complete and its adjacency exact.
  - `reduction`, `regeneration`, `cache`, `acceptance_issues`: the back-off
    plan of generation, when the topology is regenerated, debug settings and
    acceptance metric identities.
  - `base_cells`, `ocean_distance`, `landscape`, `cliffs`, `edge_binding`,
    `territory`, `spawn_plans`: map generation rules — the cells of a fresh
    map, its ocean border and what a regenerated tile keeps, distances to the
    ocean, landscape features, cliff placement and its binding to half-edges
    (`binding_laws`), faction territories grown breadth first, and the
    placement of deposits, treasures, settlements and points of interest,
    all drawn from the seeded generator that `random` wraps.
- `tests/` — tests run against the compiled library.
- `app/` — engine plumbing and floating-point geometry: world positions,
  face measurements, noise fields, the generation driver and the engine
  systems and plugins.
