# wbtools

A verified library for the bookkeeping around Whitebox geoprocessing tools:
GeoPackage layers, tool arguments and manifests, the kriging tools' argument
handling, and the tool catalog.  Every function in `src/` carries a Verus
contract.  All are proved except four trusted wrappers, whose contracts are
believed: `push_char` in `src/text.rs` (std's `String::push`) and the three
EPSG registry lookups in `src/crs.rs`.

## Layout

- `src/text.rs` — character-level string helpers (ASCII case, trimming,
  prefixes, searching, ordering, decimal text).
- `src/bytes.rs` — little-endian integer encoding.
- `src/sqlval.rs`, `src/db.rs` — an in-memory model of the SQLite database a
  GeoPackage is: tables, columns and rows with rowids.
- `src/geometry.rs` — geometries, their GeoPackage blob encoding and decoding
  (proved to round-trip) and bounding boxes.
- `src/feature.rs` — attribute fields, features and layers.
- `src/crs.rs` — the EPSG registry lookups that `wbprojection` provides
  (CRS names, OGC WKT, EPSG codes identified in WKT), behind trusted
  wrappers.
- `src/geopackage.rs` — writing layers into a GeoPackage, the streaming
  writer, and reading layers back, with the laws that relate them.
- `src/tool.rs` — license tiers, tool errors, tool arguments, metadata and
  manifests.
- `src/kriging.rs` — the kriging tools' metadata, manifests, argument checks
  and run plans.
- `src/assoc.rs` — text-keyed maps kept as ordered pairs.
- `src/catalog.rs` — tier names, tool availability, display defaults and
  render hints from tags, parameter ordering and documentation.
- `app/lib.rs` — JSON handling and the floating-point parts of the kriging
  tools, around the library.

Floating-point values (coordinates, bounds, attribute values) are held in the
library by their IEEE-754 bit patterns.
