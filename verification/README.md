# ecad_core

The core of a small electronic CAD engine, written and proved in Verus: exact geometry
and clearance, the board stackup, parts and their placement, KiCad import, interface
inference, routed copper with its design-rule check, the query engine, the version
history and the text view of a document.

- `src/geom` — shapes, flattening, polygons, hulls, the exact clearance test, the test for
  common interior, nearest boundary points, stackups and features.
- `src/part` — pins, pads, interfaces, placement, courtyards and texts.
- `src/kicad` — S-expressions, footprints, symbols and board outlines.
- `src/iface_infer.rs` — interfaces attached by pin names or by hand.
- `src/route` — traces, vias, incidence, connectivity, world features and the check.
- `src/query.rs`, `src/history.rs`, `src/session.rs`, `src/project.rs`, `src/ir.rs`,
  `src/doc.rs` — derived values, versions, working sessions, the text view, directives and
  the document.
- `src/binary64.rs`, `src/precision.rs`, `src/coord.rs`, `src/names.rs`,
  `src/numbered.rs`, `src/text.rs`, `src/id.rs` — the ground under them.
- `app` — files and floating point around the library.

Coordinates are integer nanometres. Region booleans, fonts, elaboration and transactions
belong to the caller: where a function needs one of their results it takes it as a plain
value, and where it needs one computed it says exactly what to compute (`world_jobs`,
`edge_jobs`, `island_jobs`).
