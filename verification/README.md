# bevy_ecs_tiled

The logic of a Tiled map integration, verified with Verus.

- `src/` — the verified library:
  - `map/` — tilemap kinds, walking finite and infinite tile layers,
    map extents, tileset atlas and image-collection layouts, tile
    animations and tile placement;
  - `properties/` — a model of reflected types, the export of those types as
    Tiled custom property types, the reading of Tiled property values into
    values of those types, for one entity or a whole map, and the resolution
    of object references to spawned entities;
  - `names.rs` — case-insensitive name filters;
  - `physics/` — the pairwise merge order used to combine collider shapes;
  - `debug.rs` — the debug plugins group;
  - `text.rs` — small string helpers with specifications.
- `tests/` — tests of the library.
- `app/` — the code around it: the serde form of the property types file,
  conversion of maps loaded by the `tiled` crate into the library's values,
  and the floating-point placement of maps in the world.
