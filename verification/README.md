# moto_core

The platform-independent core of the moto motorcycle route planner, with
its logic specified and proved in Verus.

## Layout

- `src/` — the verified library.
  - `region/` — the binary region file: header and section table, the
    structural checks a file must pass before anything reads it
    (`check`, `read`, `accept`) and the error text for each fault
    they find (`faults`), what an accepted file guarantees of its graph
    and arrays (`sound`), the arrays it holds (`layout`, `format`),
    and writing a file (`content`, `encode`, `writer`, `grid`), with the
    law that a written file reads back as what was written.
  - `section`, `tag`, `types`, `ffi` — the rider's data model, its stored
    codes and checks, and the plain types the app bindings carry.
  - `overlap`, `draft`, `favourites` — when one section makes another
    redundant, the OSM way spans a path covers, and which stretch of a
    road edge a section favours.
  - `exchange/` — export names, import checks, the import plan, and the
    plain, gzip, zip and tar.gz containers.
  - `gpx/` — ISO 8601 times, text escaping and scanning, and ride times.
  - `track`, `store`, `rematch` — checks on recorded tracks, the stored
    geometry encoding, and the region key sections are matched against.
  - `le`, `error` — little-endian reading and the library's errors.
- `tests/` — tests on concrete values, run against the compiled library.
- `app/` — the unverified layer: the SQLite store, files, GeoJSON and GPX
  text with floating-point coordinates, overlap geometry in metres, and
  the error types' display text.

Left out of both: the routing engine (snapping, shortest paths, round
trips, route scoring, the favourites bonus on edge costs and the route
handoff to nav apps), map matching of recorded tracks, section
suggestions from quick-tags, the road-at-a-point lookup and curvature
metrics of a polyline. Each works on metre distances, angles and costs
in floating point throughout, with no integer core to part from it.

Verify with `verus` on `src/lib.rs` (crate type `lib`).
